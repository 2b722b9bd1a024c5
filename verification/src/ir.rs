//! The typed program tree: ordered forges, each containing ordered shapes,
//! procedures and bind declarations.  All strings (types, expressions,
//! predicates) are opaque display labels at this layer.

use vstd::prelude::*;

verus! {

#[derive(Debug, Clone, PartialEq, Eq)]
pub struct DirProgram {
    pub forges: Vec<DirForge>,
}

#[derive(Debug, Clone, PartialEq, Eq)]
pub struct DirForge {
    pub name: String,
    pub shapes: Vec<DirShape>,
    pub procs: Vec<DirProc>,
    pub binds: Vec<DirBind>,
}

#[derive(Debug, Clone, PartialEq, Eq)]
pub struct DirShape {
    pub name: String,
    pub fields: Vec<DirField>,
}

#[derive(Debug, Clone, PartialEq, Eq)]
pub struct DirField {
    pub name: String,
    pub ty: String,
}

#[derive(Debug, Clone, PartialEq, Eq)]
pub struct DirProc {
    pub regime: String,
    pub name: String,
    pub params: Vec<DirParam>,
    pub uses: Vec<DirUses>,
    pub ret: Option<String>,
    pub qualifiers: Vec<String>,
    pub body: Vec<DirStmt>,
}

#[derive(Debug, Clone, PartialEq, Eq)]
pub struct DirParam {
    pub name: String,
    pub ty: String,
}

#[derive(Debug, Clone, PartialEq, Eq)]
pub struct DirUses {
    pub resource: String,
    pub args: Vec<(String, DirLit)>,
}

#[derive(Debug, Clone, PartialEq, Eq)]
pub enum DirLit {
    Int(i64),
    Bool(bool),
    String(String),
}

/// The closed statement variant set.
#[derive(Debug, Clone, PartialEq, Eq)]
pub enum DirStmt {
    Let(DirLet),
    Constrain(DirConstrain),
    Prove(DirProve),
    Effect(DirEffect),
    Return(DirReturn),
}

#[derive(Debug, Clone, PartialEq, Eq)]
pub struct DirLet {
    pub name: String,
    pub expr: String,
}

#[derive(Debug, Clone, PartialEq, Eq)]
pub struct DirConstrain {
    pub predicate: String,
}

#[derive(Debug, Clone, PartialEq, Eq)]
pub struct DirProve {
    pub name: String,
    pub from: String,
}

#[derive(Debug, Clone, PartialEq, Eq)]
pub struct DirEffect {
    pub kind: String,
    pub payload: String,
}

#[derive(Debug, Clone, PartialEq, Eq)]
pub struct DirReturn {
    pub expr: String,
}

#[derive(Debug, Clone, PartialEq, Eq)]
pub struct DirBind {
    pub source: String,
    pub target: String,
    pub contract: Vec<DirClause>,
}

#[derive(Debug, Clone, PartialEq, Eq)]
pub struct DirClause {
    pub key: String,
    pub op: String,
    pub value: String,
}

#[verifier::ext_equal]
pub ghost struct DirShapeView {
    pub name: Seq<char>,
    pub fields: Seq<(Seq<char>, Seq<char>)>,
}

#[verifier::ext_equal]
pub ghost enum DirStmtView {
    Let { name: Seq<char>, expr: Seq<char> },
    Constrain { predicate: Seq<char> },
    Prove { name: Seq<char>, from: Seq<char> },
    Effect { kind: Seq<char>, payload: Seq<char> },
    Return { expr: Seq<char> },
}

#[verifier::ext_equal]
pub ghost struct DirUsesView {
    pub resource: Seq<char>,
}

#[verifier::ext_equal]
pub ghost struct DirProcView {
    pub regime: Seq<char>,
    pub name: Seq<char>,
    pub uses: Seq<DirUsesView>,
    pub body: Seq<DirStmtView>,
}

#[verifier::ext_equal]
pub ghost struct DirClauseView {
    pub key: Seq<char>,
    pub op: Seq<char>,
    pub value: Seq<char>,
}

#[verifier::ext_equal]
pub ghost struct DirBindView {
    pub source: Seq<char>,
    pub target: Seq<char>,
    pub contract: Seq<DirClauseView>,
}

#[verifier::ext_equal]
pub ghost struct DirForgeView {
    pub name: Seq<char>,
    pub shapes: Seq<DirShapeView>,
    pub procs: Seq<DirProcView>,
    pub binds: Seq<DirBindView>,
}

#[verifier::ext_equal]
pub ghost struct DirProgramView {
    pub forges: Seq<DirForgeView>,
}

impl View for DirShape {
    type V = DirShapeView;

    open spec fn view(&self) -> DirShapeView {
        DirShapeView {
            name: self.name@,
            fields: self.fields@.map_values(|f: DirField| (f.name@, f.ty@)),
        }
    }
}

impl View for DirStmt {
    type V = DirStmtView;

    open spec fn view(&self) -> DirStmtView {
        match self {
            DirStmt::Let(s) => DirStmtView::Let { name: s.name@, expr: s.expr@ },
            DirStmt::Constrain(s) => DirStmtView::Constrain { predicate: s.predicate@ },
            DirStmt::Prove(s) => DirStmtView::Prove { name: s.name@, from: s.from@ },
            DirStmt::Effect(s) => DirStmtView::Effect { kind: s.kind@, payload: s.payload@ },
            DirStmt::Return(s) => DirStmtView::Return { expr: s.expr@ },
        }
    }
}

impl View for DirUses {
    type V = DirUsesView;

    open spec fn view(&self) -> DirUsesView {
        DirUsesView { resource: self.resource@ }
    }
}

/// The model of a statement list.
pub open spec fn stmts_view(s: Seq<DirStmt>) -> Seq<DirStmtView> {
    s.map_values(|x: DirStmt| x@)
}

impl View for DirProc {
    type V = DirProcView;

    open spec fn view(&self) -> DirProcView {
        DirProcView {
            regime: self.regime@,
            name: self.name@,
            uses: self.uses@.map_values(|u: DirUses| u@),
            body: stmts_view(self.body@),
        }
    }
}

impl View for DirClause {
    type V = DirClauseView;

    open spec fn view(&self) -> DirClauseView {
        DirClauseView { key: self.key@, op: self.op@, value: self.value@ }
    }
}

impl View for DirBind {
    type V = DirBindView;

    open spec fn view(&self) -> DirBindView {
        DirBindView {
            source: self.source@,
            target: self.target@,
            contract: self.contract@.map_values(|c: DirClause| c@),
        }
    }
}

impl View for DirForge {
    type V = DirForgeView;

    open spec fn view(&self) -> DirForgeView {
        DirForgeView {
            name: self.name@,
            shapes: self.shapes@.map_values(|s: DirShape| s@),
            procs: self.procs@.map_values(|p: DirProc| p@),
            binds: self.binds@.map_values(|b: DirBind| b@),
        }
    }
}

impl View for DirProgram {
    type V = DirProgramView;

    open spec fn view(&self) -> DirProgramView {
        DirProgramView { forges: self.forges@.map_values(|f: DirForge| f@) }
    }
}

} // verus!
