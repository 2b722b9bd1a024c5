//! The constraint document model: an ordered list of constraint nodes and an
//! ordered list of constraint edges, both referring to one another through
//! external string ids, plus an optional symbolic reference from each node
//! into the program tree (by procedure name and statement position).
//!
//! Also the id table handed back by the constraint overlay: the mapping from
//! a constraint's external string id to the graph node id it was given.

use vstd::prelude::*;

use crate::graph::{AttrView, NodeId};

verus! {

/// Unique external identifier of a constraint node.
#[derive(Debug, Clone, PartialEq, Eq, Hash)]
pub struct ConstraintId(pub String);

/// Kinds of constraint nodes.
#[derive(Debug, Clone, Copy, PartialEq, Eq, Structural)]
pub enum ConstraintNodeKind {
    Predicate,
    Rule,
    Obligation,
    Witness,
    Proof,
    Diagnostic,
}

/// Kinds of constraint edges.
#[derive(Debug, Clone, Copy, PartialEq, Eq, Structural)]
pub enum ConstraintEdgeKind {
    DependsOn,
    Justifies,
    Requires,
    Blocks,
    Produces,
    RefersTo,
}

/// Arbitrary key/value metadata on a constraint node or edge.
#[derive(Debug, Clone, PartialEq, Eq)]
pub struct ConstraintAttr {
    pub key: String,
    pub value: String,
}

/// Optional symbolic reference from a constraint node into the program tree.
#[derive(Debug, Clone, PartialEq, Eq)]
pub struct IrRef {
    pub proc: Option<String>,
    pub stmt_index: Option<usize>,
    pub symbol: Option<String>,
}

/// A constraint node.
#[derive(Debug, Clone, PartialEq, Eq)]
pub struct ConstraintNode {
    pub id: ConstraintId,
    pub kind: ConstraintNodeKind,
    pub label: String,
    pub ir_ref: Option<IrRef>,
    pub attrs: Vec<ConstraintAttr>,
}

/// A directed edge between two constraint nodes, by external id.
#[derive(Debug, Clone, PartialEq, Eq)]
pub struct ConstraintEdge {
    pub from: ConstraintId,
    pub to: ConstraintId,
    pub kind: ConstraintEdgeKind,
    pub attrs: Vec<ConstraintAttr>,
}

/// Root constraint document.
#[derive(Debug, Clone, PartialEq, Eq)]
pub struct ConstraintsDocument {
    pub nodes: Vec<ConstraintNode>,
    pub edges: Vec<ConstraintEdge>,
}

#[verifier::ext_equal]
pub ghost struct IrRefView {
    pub proc: Option<Seq<char>>,
    pub stmt_index: Option<int>,
    pub symbol: Option<Seq<char>>,
}

#[verifier::ext_equal]
pub ghost struct ConstraintNodeView {
    pub id: Seq<char>,
    pub kind: ConstraintNodeKind,
    pub label: Seq<char>,
    pub ir_ref: Option<IrRefView>,
    pub attrs: Seq<AttrView>,
}

#[verifier::ext_equal]
pub ghost struct ConstraintEdgeView {
    pub from: Seq<char>,
    pub to: Seq<char>,
    pub kind: ConstraintEdgeKind,
    pub attrs: Seq<AttrView>,
}

#[verifier::ext_equal]
pub ghost struct ConstraintsDocumentView {
    pub nodes: Seq<ConstraintNodeView>,
    pub edges: Seq<ConstraintEdgeView>,
}

/// The model of a constraint attribute list.
pub open spec fn cattrs_view(s: Seq<ConstraintAttr>) -> Seq<AttrView> {
    s.map_values(|a: ConstraintAttr| AttrView { key: a.key@, value: a.value@ })
}

impl View for IrRef {
    type V = IrRefView;

    open spec fn view(&self) -> IrRefView {
        IrRefView {
            proc: match self.proc {
                Some(p) => Some(p@),
                None => None,
            },
            stmt_index: match self.stmt_index {
                Some(i) => Some(i as int),
                None => None,
            },
            symbol: match self.symbol {
                Some(s) => Some(s@),
                None => None,
            },
        }
    }
}

impl View for ConstraintNode {
    type V = ConstraintNodeView;

    open spec fn view(&self) -> ConstraintNodeView {
        ConstraintNodeView {
            id: self.id.0@,
            kind: self.kind,
            label: self.label@,
            ir_ref: match self.ir_ref {
                Some(r) => Some(r@),
                None => None,
            },
            attrs: cattrs_view(self.attrs@),
        }
    }
}

impl View for ConstraintEdge {
    type V = ConstraintEdgeView;

    open spec fn view(&self) -> ConstraintEdgeView {
        ConstraintEdgeView {
            from: self.from.0@,
            to: self.to.0@,
            kind: self.kind,
            attrs: cattrs_view(self.attrs@),
        }
    }
}

impl View for ConstraintsDocument {
    type V = ConstraintsDocumentView;

    open spec fn view(&self) -> ConstraintsDocumentView {
        ConstraintsDocumentView {
            nodes: self.nodes@.map_values(|n: ConstraintNode| n@),
            edges: self.edges@.map_values(|e: ConstraintEdge| e@),
        }
    }
}

/// Looking a key up in an entry list, newest entry first: the binding made
/// last wins.
pub open spec fn table_lookup(t: Seq<(Seq<char>, int)>, key: Seq<char>) -> Option<int>
    decreases t.len(),
{
    if t.len() == 0 {
        None
    } else if t.last().0 == key {
        Some(t.last().1)
    } else {
        table_lookup(t.drop_last(), key)
    }
}

/// A found binding is one of the entries.
pub proof fn lemma_table_lookup_entry(t: Seq<(Seq<char>, int)>, key: Seq<char>)
    requires
        table_lookup(t, key) is Some,
    ensures
        exists|k: int|
            0 <= k < t.len() && (#[trigger] t[k]).0 == key && t[k].1 == table_lookup(
                t,
                key,
            ).unwrap(),
    decreases t.len(),
{
    if t.last().0 == key {
        assert(t[t.len() - 1].0 == key);
    } else {
        lemma_table_lookup_entry(t.drop_last(), key);
        let k = choose|k: int|
            0 <= k < t.drop_last().len() && (#[trigger] t.drop_last()[k]).0 == key
                && t.drop_last()[k].1 == table_lookup(t.drop_last(), key).unwrap();
        assert(t[k] == t.drop_last()[k]);
    }
}

/// The external-id → node-id map returned by the constraint overlay: an
/// append-only list of bindings where the binding made last wins.
#[derive(Debug, Clone)]
pub struct IdTable {
    pub entries: Vec<(String, NodeId)>,
}

impl View for IdTable {
    type V = Seq<(Seq<char>, int)>;

    open spec fn view(&self) -> Seq<(Seq<char>, int)> {
        self.entries@.map_values(|p: (String, NodeId)| (p.0@, p.1 as int))
    }
}

impl IdTable {
    pub fn new() -> (t: IdTable)
        ensures
            t@ == Seq::<(Seq<char>, int)>::empty(),
    {
        let t = IdTable { entries: Vec::new() };
        proof {
            assert(t@ =~= Seq::<(Seq<char>, int)>::empty());
        }
        t
    }

    /// Bind an external id to a node id; a later binding for the same id
    /// shadows an earlier one.
    pub fn insert(&mut self, key: String, id: NodeId)
        ensures
            final(self)@ == old(self)@.push((key@, id as int)),
    {
        self.entries.push((key, id));
        proof {
            assert(final(self)@ =~= old(self)@.push((key@, id as int)));
        }
    }

    /// Resolve an external id; `None` when no binding exists.
    pub fn get(&self, key: &String) -> (r: Option<NodeId>)
        ensures
            match table_lookup(self@, key@) {
                Some(v) => r is Some && r.unwrap() as int == v,
                None => r is None,
            },
    {
        let mut j: usize = self.entries.len();
        proof {
            assert(self@.take(j as int) =~= self@);
        }
        while j > 0
            invariant
                j <= self.entries.len(),
                table_lookup(self@, key@) == table_lookup(self@.take(j as int), key@),
            decreases j,
        {
            j -= 1;
            proof {
                assert(self@.take(j + 1).last() == self@[j as int]);
                assert(self@.take(j + 1).drop_last() =~= self@.take(j as int));
                assert(self@[j as int].0 == self.entries@[j as int].0@);
            }
            if self.entries[j].0 == *key {
                return Some(self.entries[j].1);
            }
        }
        proof {
            assert(self@.take(0) =~= Seq::<(Seq<char>, int)>::empty());
        }
        None
    }
}

} // verus!
