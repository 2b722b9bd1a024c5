//! Deterministic conversion of a program tree into graph content.
//!
//! The traversal order is fixed: one Program node, then for each forge in
//! document order a Forge node and its children — shapes, then procedures
//! (each with its resource uses and its statement body in order), then binds
//! with their contract clauses.  Node and edge ids are assigned purely by
//! insertion order, so the same tree always yields the same graph.

use vstd::prelude::*;

use crate::graph::{
    Attr, AttrView, EdgeKind, Graph, GraphView, NodeId, NodeKind, NodeKindView,
};
use crate::ir::{
    stmts_view, DirBind, DirBindView, DirClauseView, DirForge, DirForgeView, DirProc,
    DirProcView, DirProgram, DirProgramView, DirShapeView, DirStmt, DirStmtView, DirUsesView,
};
use crate::strutil::{dec_str, usize_to_string};
use vstd::string::StringExecFns;

verus! {

/// The single display line of a statement: its variant name and its literal
/// sub-fields, verbatim.
pub open spec fn stmt_label(s: DirStmtView) -> Seq<char> {
    match s {
        DirStmtView::Let { name, expr } => "Let "@ + name + " = "@ + expr,
        DirStmtView::Constrain { predicate } => "Constrain "@ + predicate,
        DirStmtView::Prove { name, from } => "Prove "@ + name + " from "@ + from,
        DirStmtView::Effect { kind, payload } => "Effect "@ + kind + " "@ + payload,
        DirStmtView::Return { expr } => "Return "@ + expr,
    }
}

/// The statements of one procedure: per statement a Stmt node carrying its
/// position as an `index` attribute, a Contains edge from the procedure, and
/// a Next edge from the statement just before it.
pub open spec fn spec_add_stmts(g: GraphView, proc_id: int, body: Seq<DirStmtView>) -> GraphView
    decreases body.len(),
{
    if body.len() == 0 {
        g
    } else {
        let g1 = spec_add_stmts(g, proc_id, body.drop_last());
        let k = body.len() - 1;
        let sid = g1.next_node_id();
        let g2 = g1.push_node(
            NodeKindView::Stmt { label: stmt_label(body.last()) },
            seq![AttrView { key: "index"@, value: dec_str(k) }],
        );
        let g3 = g2.push_edge(EdgeKind::Contains, proc_id, sid);
        if k > 0 {
            g3.push_edge(EdgeKind::Next, sid - 1, sid)
        } else {
            g3
        }
    }
}

/// The resource uses of one procedure: a Uses node and a Uses edge each.
pub open spec fn spec_add_uses(g: GraphView, proc_id: int, uses: Seq<DirUsesView>) -> GraphView
    decreases uses.len(),
{
    if uses.len() == 0 {
        g
    } else {
        let g1 = spec_add_uses(g, proc_id, uses.drop_last());
        let uid = g1.next_node_id();
        let g2 = g1.push_node(NodeKindView::Uses { resource: uses.last().resource }, Seq::empty());
        g2.push_edge(EdgeKind::Uses, proc_id, uid)
    }
}

/// One procedure: its Proc node and Contains edge, then uses, then body.
pub open spec fn spec_add_proc(g: GraphView, forge_id: int, p: DirProcView) -> GraphView {
    let pid = g.next_node_id();
    let g1 = g.push_node(NodeKindView::Proc { regime: p.regime, name: p.name }, Seq::empty());
    let g2 = g1.push_edge(EdgeKind::Contains, forge_id, pid);
    let g3 = spec_add_uses(g2, pid, p.uses);
    spec_add_stmts(g3, pid, p.body)
}

pub open spec fn spec_add_procs(g: GraphView, forge_id: int, procs: Seq<DirProcView>) -> GraphView
    decreases procs.len(),
{
    if procs.len() == 0 {
        g
    } else {
        spec_add_proc(spec_add_procs(g, forge_id, procs.drop_last()), forge_id, procs.last())
    }
}

/// The shapes of one forge: a Shape node and a Contains edge each.
pub open spec fn spec_add_shapes(g: GraphView, forge_id: int, shapes: Seq<DirShapeView>) -> GraphView
    decreases shapes.len(),
{
    if shapes.len() == 0 {
        g
    } else {
        let g1 = spec_add_shapes(g, forge_id, shapes.drop_last());
        let sid = g1.next_node_id();
        let g2 = g1.push_node(NodeKindView::Shape { name: shapes.last().name }, Seq::empty());
        g2.push_edge(EdgeKind::Contains, forge_id, sid)
    }
}

/// The contract clauses of one bind: a Clause node and a Clause edge each.
pub open spec fn spec_add_clauses(g: GraphView, bind_id: int, cs: Seq<DirClauseView>) -> GraphView
    decreases cs.len(),
{
    if cs.len() == 0 {
        g
    } else {
        let g1 = spec_add_clauses(g, bind_id, cs.drop_last());
        let c = cs.last();
        let cid = g1.next_node_id();
        let g2 = g1.push_node(
            NodeKindView::Clause { key: c.key, op: c.op, value: c.value },
            Seq::empty(),
        );
        g2.push_edge(EdgeKind::Clause, bind_id, cid)
    }
}

/// One bind: its Bind node and Contains edge, then its clauses.
pub open spec fn spec_add_bind(g: GraphView, forge_id: int, b: DirBindView) -> GraphView {
    let bid = g.next_node_id();
    let g1 = g.push_node(NodeKindView::Bind { source: b.source, target: b.target }, Seq::empty());
    let g2 = g1.push_edge(EdgeKind::Contains, forge_id, bid);
    spec_add_clauses(g2, bid, b.contract)
}

pub open spec fn spec_add_binds(g: GraphView, forge_id: int, binds: Seq<DirBindView>) -> GraphView
    decreases binds.len(),
{
    if binds.len() == 0 {
        g
    } else {
        spec_add_bind(spec_add_binds(g, forge_id, binds.drop_last()), forge_id, binds.last())
    }
}

/// One forge: its Forge node and Contains edge from the program node, then
/// the whole subtree under it — shapes, procedures, binds, in that order.
pub open spec fn spec_add_forge(g: GraphView, parent: int, f: DirForgeView) -> GraphView {
    let fid = g.next_node_id();
    let g1 = g.push_node(NodeKindView::Forge { name: f.name }, Seq::empty());
    let g2 = g1.push_edge(EdgeKind::Contains, parent, fid);
    let g3 = spec_add_shapes(g2, fid, f.shapes);
    let g4 = spec_add_procs(g3, fid, f.procs);
    spec_add_binds(g4, fid, f.binds)
}

pub open spec fn spec_add_forges(g: GraphView, parent: int, fs: Seq<DirForgeView>) -> GraphView
    decreases fs.len(),
{
    if fs.len() == 0 {
        g
    } else {
        spec_add_forge(spec_add_forges(g, parent, fs.drop_last()), parent, fs.last())
    }
}

/// The graph a program tree builds: the Program node at id 0, then every
/// forge subtree in document order.
pub open spec fn spec_build(p: DirProgramView) -> GraphView {
    spec_add_forges(GraphView::empty().push_node(NodeKindView::Program, Seq::empty()), 0, p.forges)
}

fn stmt_label_exec(stmt: &DirStmt) -> (r: String)
    ensures
        r@ == stmt_label(stmt@),
{
    match stmt {
        DirStmt::Let(s) => {
            let mut l = String::from_str("Let ");
            l.append(s.name.as_str());
            l.append(" = ");
            l.append(s.expr.as_str());
            l
        },
        DirStmt::Constrain(s) => {
            let mut l = String::from_str("Constrain ");
            l.append(s.predicate.as_str());
            l
        },
        DirStmt::Prove(s) => {
            let mut l = String::from_str("Prove ");
            l.append(s.name.as_str());
            l.append(" from ");
            l.append(s.from.as_str());
            l
        },
        DirStmt::Effect(s) => {
            let mut l = String::from_str("Effect ");
            l.append(s.kind.as_str());
            l.append(" ");
            l.append(s.payload.as_str());
            l
        },
        DirStmt::Return(s) => {
            let mut l = String::from_str("Return ");
            l.append(s.expr.as_str());
            l
        },
    }
}

fn build_stmts(g: &mut Graph, proc_id: NodeId, body: &Vec<DirStmt>)
    requires
        old(g)@.wf(),
        proc_id < old(g)@.nodes.len(),
    ensures
        final(g)@ == spec_add_stmts(old(g)@, proc_id as int, stmts_view(body@)),
        final(g)@.wf(),
        final(g)@.nodes.len() >= old(g)@.nodes.len(),
{
    let ghost g0 = g@;
    let ghost bodyv = stmts_view(body@);
    let mut i: usize = 0;
    let mut prev: Option<NodeId> = None;
    while i < body.len()
        invariant
            i <= body.len(),
            bodyv == stmts_view(body@),
            bodyv.len() == body@.len(),
            g0.wf(),
            proc_id < g0.nodes.len(),
            g@ == spec_add_stmts(g0, proc_id as int, bodyv.take(i as int)),
            g@.wf(),
            g@.nodes.len() >= g0.nodes.len(),
            i == 0 ==> prev is None,
            i > 0 ==> prev == Some((g@.nodes.len() - 1) as usize) && g@.nodes.len() >= 1,
        decreases body.len() - i,
    {
        proof {
            assert(bodyv[i as int] == body@[i as int]@);
        }
        let stmt = &body[i];
        let label = stmt_label_exec(stmt);
        let index_attr = Attr { key: String::from_str("index"), value: usize_to_string(i) };
        let mut attrs: Vec<Attr> = Vec::new();
        attrs.push(index_attr);
        let ghost before = g@;
        let stmt_id = g.add_node_with_attrs(NodeKind::Stmt { label }, attrs);
        g.add_edge(EdgeKind::Contains, proc_id, stmt_id);
        if let Some(p) = prev {
            proof {
                assert(i > 0);
            }
            g.add_edge(EdgeKind::Next, p, stmt_id);
        }
        prev = Some(stmt_id);
        proof {
            assert(bodyv.take(i + 1).drop_last() =~= bodyv.take(i as int));
            assert(bodyv.take(i + 1).last() == bodyv[i as int]);
            assert(g@ =~~= spec_add_stmts(g0, proc_id as int, bodyv.take(i + 1)));
        }
        i += 1;
    }
    proof {
        assert(bodyv.take(body@.len() as int) =~= bodyv);
    }
}

fn build_proc(g: &mut Graph, forge_id: NodeId, proc_decl: &DirProc) -> (pid: NodeId)
    requires
        old(g)@.wf(),
        forge_id < old(g)@.nodes.len(),
    ensures
        final(g)@ == spec_add_proc(old(g)@, forge_id as int, proc_decl@),
        final(g)@.wf(),
        final(g)@.nodes.len() >= old(g)@.nodes.len() + 1,
{
    let ghost g0 = g@;
    let pid = g.add_node(
        NodeKind::Proc { regime: proc_decl.regime.clone(), name: proc_decl.name.clone() },
    );
    g.add_edge(EdgeKind::Contains, forge_id, pid);

    let ghost g2 = g@;
    let mut ui: usize = 0;
    while ui < proc_decl.uses.len()
        invariant
            ui <= proc_decl.uses.len(),
            g2.wf(),
            pid < g2.nodes.len(),
            g@ == spec_add_uses(g2, pid as int, proc_decl@.uses.take(ui as int)),
            g@.wf(),
            g@.nodes.len() >= g2.nodes.len(),
        decreases proc_decl.uses.len() - ui,
    {
        proof {
            assert(proc_decl@.uses[ui as int] == proc_decl.uses@[ui as int]@);
        }
        let uses_decl = &proc_decl.uses[ui];
        let uses_id = g.add_node(NodeKind::Uses { resource: uses_decl.resource.clone() });
        g.add_edge(EdgeKind::Uses, pid, uses_id);
        proof {
            assert(proc_decl@.uses.take(ui + 1).drop_last() =~= proc_decl@.uses.take(ui as int));
            assert(proc_decl@.uses.take(ui + 1).last() == proc_decl@.uses[ui as int]);
            assert(g@ =~~= spec_add_uses(g2, pid as int, proc_decl@.uses.take(ui + 1)));
        }
        ui += 1;
    }
    proof {
        assert(proc_decl@.uses.take(proc_decl.uses@.len() as int) =~= proc_decl@.uses);
        assert(stmts_view(proc_decl.body@) =~= proc_decl@.body);
    }
    build_stmts(g, pid, &proc_decl.body);
    pid
}

fn build_bind(g: &mut Graph, forge_id: NodeId, bind: &DirBind) -> (bid: NodeId)
    requires
        old(g)@.wf(),
        forge_id < old(g)@.nodes.len(),
    ensures
        final(g)@ == spec_add_bind(old(g)@, forge_id as int, bind@),
        final(g)@.wf(),
        final(g)@.nodes.len() >= old(g)@.nodes.len() + 1,
{
    let ghost g0 = g@;
    let bid = g.add_node(
        NodeKind::Bind { source: bind.source.clone(), target: bind.target.clone() },
    );
    g.add_edge(EdgeKind::Contains, forge_id, bid);

    let ghost g2 = g@;
    let mut ci: usize = 0;
    while ci < bind.contract.len()
        invariant
            ci <= bind.contract.len(),
            g2.wf(),
            bid < g2.nodes.len(),
            g@ == spec_add_clauses(g2, bid as int, bind@.contract.take(ci as int)),
            g@.wf(),
            g@.nodes.len() >= g2.nodes.len(),
        decreases bind.contract.len() - ci,
    {
        proof {
            assert(bind@.contract[ci as int] == bind.contract@[ci as int]@);
        }
        let clause = &bind.contract[ci];
        let clause_id = g.add_node(
            NodeKind::Clause {
                key: clause.key.clone(),
                op: clause.op.clone(),
                value: clause.value.clone(),
            },
        );
        g.add_edge(EdgeKind::Clause, bid, clause_id);
        proof {
            assert(bind@.contract.take(ci + 1).drop_last() =~= bind@.contract.take(ci as int));
            assert(bind@.contract.take(ci + 1).last() == bind@.contract[ci as int]);
            assert(g@ =~~= spec_add_clauses(g2, bid as int, bind@.contract.take(ci + 1)));
        }
        ci += 1;
    }
    proof {
        assert(bind@.contract.take(bind.contract@.len() as int) =~= bind@.contract);
    }
    bid
}

fn build_forge_children(g: &mut Graph, forge_id: NodeId, forge: &DirForge)
    requires
        old(g)@.wf(),
        forge_id < old(g)@.nodes.len(),
    ensures
        final(g)@ == spec_add_binds(
            spec_add_procs(
                spec_add_shapes(old(g)@, forge_id as int, forge@.shapes),
                forge_id as int,
                forge@.procs,
            ),
            forge_id as int,
            forge@.binds,
        ),
        final(g)@.wf(),
        final(g)@.nodes.len() >= old(g)@.nodes.len(),
{
    let ghost g0 = g@;
    let mut si: usize = 0;
    while si < forge.shapes.len()
        invariant
            si <= forge.shapes.len(),
            g0.wf(),
            forge_id < g0.nodes.len(),
            g@ == spec_add_shapes(g0, forge_id as int, forge@.shapes.take(si as int)),
            g@.wf(),
            g@.nodes.len() >= g0.nodes.len(),
        decreases forge.shapes.len() - si,
    {
        proof {
            assert(forge@.shapes[si as int] == forge.shapes@[si as int]@);
        }
        let shape = &forge.shapes[si];
        let shape_id = g.add_node(NodeKind::Shape { name: shape.name.clone() });
        g.add_edge(EdgeKind::Contains, forge_id, shape_id);
        proof {
            assert(forge@.shapes.take(si + 1).drop_last() =~= forge@.shapes.take(si as int));
            assert(forge@.shapes.take(si + 1).last() == forge@.shapes[si as int]);
            assert(g@ =~~= spec_add_shapes(g0, forge_id as int, forge@.shapes.take(si + 1)));
        }
        si += 1;
    }
    proof {
        assert(forge@.shapes.take(forge.shapes@.len() as int) =~= forge@.shapes);
    }

    let ghost g1 = g@;
    let mut pi: usize = 0;
    while pi < forge.procs.len()
        invariant
            pi <= forge.procs.len(),
            g1.wf(),
            forge_id < g1.nodes.len(),
            g@ == spec_add_procs(g1, forge_id as int, forge@.procs.take(pi as int)),
            g@.wf(),
            g@.nodes.len() >= g1.nodes.len(),
        decreases forge.procs.len() - pi,
    {
        proof {
            assert(forge@.procs[pi as int] == forge.procs@[pi as int]@);
        }
        build_proc(g, forge_id, &forge.procs[pi]);
        proof {
            assert(forge@.procs.take(pi + 1).drop_last() =~= forge@.procs.take(pi as int));
            assert(forge@.procs.take(pi + 1).last() == forge@.procs[pi as int]);
        }
        pi += 1;
    }
    proof {
        assert(forge@.procs.take(forge.procs@.len() as int) =~= forge@.procs);
    }

    let ghost g2 = g@;
    let mut bi: usize = 0;
    while bi < forge.binds.len()
        invariant
            bi <= forge.binds.len(),
            g2.wf(),
            forge_id < g2.nodes.len(),
            g@ == spec_add_binds(g2, forge_id as int, forge@.binds.take(bi as int)),
            g@.wf(),
            g@.nodes.len() >= g2.nodes.len(),
        decreases forge.binds.len() - bi,
    {
        proof {
            assert(forge@.binds[bi as int] == forge.binds@[bi as int]@);
        }
        build_bind(g, forge_id, &forge.binds[bi]);
        proof {
            assert(forge@.binds.take(bi + 1).drop_last() =~= forge@.binds.take(bi as int));
            assert(forge@.binds.take(bi + 1).last() == forge@.binds[bi as int]);
        }
        bi += 1;
    }
    proof {
        assert(forge@.binds.take(forge.binds@.len() as int) =~= forge@.binds);
    }
}

/// Build the whole visualization graph of a program tree.
///
/// The result is exactly `spec_build(program@)`: re-running on an unchanged
/// tree yields identical node and edge sequences, ids and attributes.
pub fn build_dir_graph(program: &DirProgram) -> (g: Graph)
    ensures
        g@ == spec_build(program@),
        g@.wf(),
{
    let mut g = Graph::new();
    let program_id = g.add_node(NodeKind::Program);
    let ghost g0 = g@;
    let mut fi: usize = 0;
    while fi < program.forges.len()
        invariant
            fi <= program.forges.len(),
            g0 == GraphView::empty().push_node(NodeKindView::Program, Seq::empty()),
            g0.wf(),
            program_id == 0,
            g0.nodes.len() == 1,
            g@ == spec_add_forges(g0, 0, program@.forges.take(fi as int)),
            g@.wf(),
            g@.nodes.len() >= 1,
        decreases program.forges.len() - fi,
    {
        proof {
            assert(program@.forges[fi as int] == program.forges@[fi as int]@);
        }
        let forge = &program.forges[fi];
        let forge_id = g.add_node(NodeKind::Forge { name: forge.name.clone() });
        g.add_edge(EdgeKind::Contains, program_id, forge_id);
        build_forge_children(&mut g, forge_id, forge);
        proof {
            assert(program@.forges.take(fi + 1).drop_last() =~= program@.forges.take(fi as int));
            assert(program@.forges.take(fi + 1).last() == program@.forges[fi as int]);
        }
        fi += 1;
    }
    proof {
        assert(program@.forges.take(program.forges@.len() as int) =~= program@.forges);
    }
    g
}

} // verus!
