//! Resolving constraint nodes' symbolic references into the base graph.
//!
//! Two indices are derived from the graph as it stands when linking starts:
//! procedure name → Proc node id (the procedure seen last wins), and
//! (procedure name, statement position) → Stmt node id, read off the
//! Contains edges from winning Proc nodes together with the `index`
//! attribute every Stmt node carries.  A reference that names a statement
//! position which resolves gets a Clause edge to that Stmt node; otherwise a
//! reference whose procedure name resolves gets a Clause edge to the Proc
//! node; otherwise nothing is added.  No node is ever added or changed.

use vstd::prelude::*;

use crate::constraints::{
    table_lookup, ConstraintNodeView, ConstraintsDocument, ConstraintsDocumentView, IdTable,
};
use crate::graph::{
    lemma_extends_refl, lemma_extends_trans, lemma_push_edge_attr_extends_beyond,
    lemma_push_edge_attr_wf, lemma_push_edge_extends, lemma_push_edge_wf, AttrView, EdgeKind,
    EdgeView, Graph, GraphView, NodeId, NodeKind, NodeKindView, NodeView,
};
use crate::strutil::{dec_str, parse_usize, parse_usize_spec, usize_to_string};
use vstd::string::StringExecFns;

verus! {

/// The procedure index: every Proc node in node order; a later procedure of
/// the same name shadows an earlier one.
pub open spec fn spec_proc_table(nodes: Seq<NodeView>) -> Seq<(Seq<char>, int)>
    decreases nodes.len(),
{
    if nodes.len() == 0 {
        Seq::empty()
    } else {
        let t = spec_proc_table(nodes.drop_last());
        match nodes.last().kind {
            NodeKindView::Proc { regime, name } => t.push((name, nodes.last().id)),
            _ => t,
        }
    }
}

/// The first attribute with the given key, if any.
pub open spec fn attr_first(attrs: Seq<AttrView>, key: Seq<char>) -> Option<Seq<char>>
    decreases attrs.len(),
{
    if attrs.len() == 0 {
        None
    } else if attrs.first().key == key {
        Some(attrs.first().value)
    } else {
        attr_first(attrs.drop_first(), key)
    }
}

/// The statement index: one entry per Contains edge that runs from a winning
/// Proc node to a Stmt node whose `index` attribute parses as a position; a
/// later entry for the same (name, position) shadows an earlier one.
pub open spec fn spec_stmt_table(g: GraphView, edges: Seq<EdgeView>) -> Seq<
    (Seq<char>, int, int),
>
    decreases edges.len(),
{
    if edges.len() == 0 {
        Seq::empty()
    } else {
        let t = spec_stmt_table(g, edges.drop_last());
        let e = edges.last();
        if e.kind == EdgeKind::Contains {
            match g.nodes[e.from].kind {
                NodeKindView::Proc { regime, name } => {
                    if table_lookup(spec_proc_table(g.nodes), name) == Some(e.from) {
                        match g.nodes[e.to].kind {
                            NodeKindView::Stmt { label } => {
                                match attr_first(g.nodes[e.to].attrs, "index"@) {
                                    Some(v) => match parse_usize_spec(v) {
                                        Some(k) => t.push((name, k as int, e.to)),
                                        None => t,
                                    },
                                    None => t,
                                }
                            },
                            _ => t,
                        }
                    } else {
                        t
                    }
                },
                _ => t,
            }
        } else {
            t
        }
    }
}

/// Looking a (name, position) pair up, newest entry first.
pub open spec fn stmt_table_lookup(t: Seq<(Seq<char>, int, int)>, name: Seq<char>, k: int) -> Option<
    int,
>
    decreases t.len(),
{
    if t.len() == 0 {
        None
    } else if t.last().0 == name && t.last().1 == k {
        Some(t.last().2)
    } else {
        stmt_table_lookup(t.drop_last(), name, k)
    }
}

/// Every id the procedure index holds names an existing node.
pub proof fn lemma_proc_table_range(nodes: Seq<NodeView>)
    requires
        forall|i: int| 0 <= i < nodes.len() ==> (#[trigger] nodes[i]).id == i,
    ensures
        forall|k: int|
            0 <= k < spec_proc_table(nodes).len() ==> 0 <= (#[trigger] spec_proc_table(
                nodes,
            )[k]).1 < nodes.len(),
    decreases nodes.len(),
{
    if nodes.len() > 0 {
        assert forall|i: int| 0 <= i < nodes.drop_last().len() implies (#[trigger] nodes.drop_last(
        )[i]).id == i by {
            assert(nodes.drop_last()[i] == nodes[i]);
        };
        lemma_proc_table_range(nodes.drop_last());
        let t = spec_proc_table(nodes.drop_last());
        assert(nodes.last().id == nodes.len() - 1);
        assert forall|k: int| 0 <= k < spec_proc_table(nodes).len() implies 0 <= (
        #[trigger] spec_proc_table(nodes)[k]).1 < nodes.len() by {
            if k < t.len() {
                assert(spec_proc_table(nodes)[k] == t[k]);
            }
        };
    }
}

/// Every id the statement index holds names an existing node.
pub proof fn lemma_stmt_table_range(g: GraphView, edges: Seq<EdgeView>)
    requires
        forall|j: int| 0 <= j < edges.len() ==> 0 <= (#[trigger] edges[j]).to < g.nodes.len(),
    ensures
        forall|k: int|
            0 <= k < spec_stmt_table(g, edges).len() ==> 0 <= (#[trigger] spec_stmt_table(
                g,
                edges,
            )[k]).2 < g.nodes.len(),
    decreases edges.len(),
{
    if edges.len() > 0 {
        assert forall|j: int| 0 <= j < edges.drop_last().len() implies 0 <= (
        #[trigger] edges.drop_last()[j]).to < g.nodes.len() by {
            assert(edges.drop_last()[j] == edges[j]);
        };
        lemma_stmt_table_range(g, edges.drop_last());
        let t = spec_stmt_table(g, edges.drop_last());
        assert forall|k: int| 0 <= k < spec_stmt_table(g, edges).len() implies 0 <= (
        #[trigger] spec_stmt_table(g, edges)[k]).2 < g.nodes.len() by {
            if k < t.len() {
                assert(spec_stmt_table(g, edges)[k] == t[k]);
            }
        };
    }
}

/// A found statement binding is one of the entries.
pub proof fn lemma_stmt_table_lookup_entry(t: Seq<(Seq<char>, int, int)>, name: Seq<char>, k: int)
    requires
        stmt_table_lookup(t, name, k) is Some,
    ensures
        exists|j: int|
            0 <= j < t.len() && (#[trigger] t[j]).2 == stmt_table_lookup(t, name, k).unwrap(),
    decreases t.len(),
{
    if t.last().0 == name && t.last().1 == k {
        assert(t[t.len() - 1].2 == stmt_table_lookup(t, name, k).unwrap());
    } else {
        lemma_stmt_table_lookup_entry(t.drop_last(), name, k);
        let j = choose|j: int|
            0 <= j < t.drop_last().len() && (#[trigger] t.drop_last()[j]).2 == stmt_table_lookup(
                t.drop_last(),
                name,
                k,
            ).unwrap();
        assert(t[j] == t.drop_last()[j]);
    }
}

/// The reference edge of one constraint node, if its reference resolves:
/// first to the named statement, else to the named procedure, else nothing.
pub open spec fn spec_link_one(
    g: GraphView,
    procs: Seq<(Seq<char>, int)>,
    stmts: Seq<(Seq<char>, int, int)>,
    t: Seq<(Seq<char>, int)>,
    c: ConstraintNodeView,
) -> GraphView {
    match c.ir_ref {
        None => g,
        Some(r) => match table_lookup(t, c.id) {
            None => g,
            Some(cid) => match r.proc {
                None => g,
                Some(pname) => match table_lookup(procs, pname) {
                    None => g,
                    Some(pid) => {
                        let stmt_target = match r.stmt_index {
                            Some(k) => stmt_table_lookup(stmts, pname, k),
                            None => None,
                        };
                        match stmt_target {
                            Some(sid) => {
                                let eid = g.next_edge_id();
                                let g1 = g.push_edge(EdgeKind::Clause, cid, sid).push_edge_attr(
                                    eid,
                                    AttrView { key: "link"@, value: "ir_ref"@ },
                                ).push_edge_attr(
                                    eid,
                                    AttrView { key: "target"@, value: "stmt"@ },
                                ).push_edge_attr(
                                    eid,
                                    AttrView { key: "proc"@, value: pname },
                                ).push_edge_attr(
                                    eid,
                                    AttrView {
                                        key: "stmt_index"@,
                                        value: dec_str(r.stmt_index.unwrap()),
                                    },
                                );
                                match r.symbol {
                                    Some(sym) => g1.push_edge_attr(
                                        eid,
                                        AttrView { key: "symbol"@, value: sym },
                                    ),
                                    None => g1,
                                }
                            },
                            None => {
                                let eid = g.next_edge_id();
                                let g1 = g.push_edge(EdgeKind::Clause, cid, pid).push_edge_attr(
                                    eid,
                                    AttrView { key: "link"@, value: "ir_ref"@ },
                                ).push_edge_attr(
                                    eid,
                                    AttrView { key: "target"@, value: "proc"@ },
                                ).push_edge_attr(
                                    eid,
                                    AttrView { key: "proc"@, value: pname },
                                );
                                match r.symbol {
                                    Some(sym) => g1.push_edge_attr(
                                        eid,
                                        AttrView { key: "symbol"@, value: sym },
                                    ),
                                    None => g1,
                                }
                            },
                        }
                    },
                },
            },
        },
    }
}

pub open spec fn spec_link_refs(
    g: GraphView,
    procs: Seq<(Seq<char>, int)>,
    stmts: Seq<(Seq<char>, int, int)>,
    t: Seq<(Seq<char>, int)>,
    nodes: Seq<ConstraintNodeView>,
) -> GraphView
    decreases nodes.len(),
{
    if nodes.len() == 0 {
        g
    } else {
        spec_link_one(
            spec_link_refs(g, procs, stmts, t, nodes.drop_last()),
            procs,
            stmts,
            t,
            nodes.last(),
        )
    }
}

/// The whole linking pass, with both indices taken from the graph as it
/// stands when the pass starts.
pub open spec fn spec_link_constraints(
    g: GraphView,
    doc: ConstraintsDocumentView,
    t: Seq<(Seq<char>, int)>,
) -> GraphView {
    spec_link_refs(g, spec_proc_table(g.nodes), spec_stmt_table(g, g.edges), t, doc.nodes)
}

/// Structural facts of one linking step.
proof fn lemma_link_one_props(
    g: GraphView,
    procs: Seq<(Seq<char>, int)>,
    stmts: Seq<(Seq<char>, int, int)>,
    t: Seq<(Seq<char>, int)>,
    c: ConstraintNodeView,
)
    requires
        g.wf(),
        forall|k: int| 0 <= k < t.len() ==> 0 <= (#[trigger] t[k]).1 < g.nodes.len(),
        forall|k: int| 0 <= k < procs.len() ==> 0 <= (#[trigger] procs[k]).1 < g.nodes.len(),
        forall|k: int| 0 <= k < stmts.len() ==> 0 <= (#[trigger] stmts[k]).2 < g.nodes.len(),
    ensures
        ({
            let g2 = spec_link_one(g, procs, stmts, t, c);
            &&& g.extends(g2)
            &&& g2.wf()
            &&& g2.nodes == g.nodes
        }),
{
    let g2 = spec_link_one(g, procs, stmts, t, c);
    lemma_extends_refl(g);
    match c.ir_ref {
        None => {},
        Some(r) => match table_lookup(t, c.id) {
            None => {},
            Some(cid) => match r.proc {
                None => {},
                Some(pname) => match table_lookup(procs, pname) {
                    None => {},
                    Some(pid) => {
                        crate::constraints::lemma_table_lookup_entry(t, c.id);
                        crate::constraints::lemma_table_lookup_entry(procs, pname);
                        let stmt_target = match r.stmt_index {
                            Some(k) => stmt_table_lookup(stmts, pname, k),
                            None => None,
                        };
                        let eid = g.next_edge_id();
                        let to = match stmt_target {
                            Some(sid) => {
                                lemma_stmt_table_lookup_entry(stmts, pname, r.stmt_index.unwrap());
                                sid
                            },
                            None => pid,
                        };
                        let ga = g.push_edge(EdgeKind::Clause, cid, to);
                        lemma_push_edge_wf(g, EdgeKind::Clause, cid, to);
                        lemma_push_edge_extends(g, EdgeKind::Clause, cid, to);
                        lemma_link_attr_chain(g, ga, eid);
                    },
                },
            },
        },
    }
}

/// Attaching attributes to the freshly added edge keeps the base graph a
/// prefix and the graph well-formed; this covers any run of pushes onto the
/// edge just past the base.
proof fn lemma_link_attr_chain(base: GraphView, g: GraphView, eid: int)
    requires
        base.wf(),
        g.wf(),
        base.extends(g),
        base.edges.len() <= eid < g.edges.len(),
        g.nodes == base.nodes,
    ensures
        forall|a: AttrView|
            {
                let g2 = #[trigger] g.push_edge_attr(eid, a);
                g2.wf() && base.extends(g2) && g2.nodes == base.nodes && base.edges.len() <= eid
                    < g2.edges.len()
            },
{
    assert forall|a: AttrView|
        {
            let g2 = #[trigger] g.push_edge_attr(eid, a);
            g2.wf() && base.extends(g2) && g2.nodes == base.nodes && base.edges.len() <= eid
                < g2.edges.len()
        } by {
        lemma_push_edge_attr_wf(g, eid, a);
        lemma_push_edge_attr_extends_beyond(base, g, eid, a);
    };
}

/// Structural facts of the whole pass: the graph before it survives as a
/// prefix, well-formedness is kept, and no node is added or changed.
pub proof fn lemma_link_refs_props(
    g: GraphView,
    procs: Seq<(Seq<char>, int)>,
    stmts: Seq<(Seq<char>, int, int)>,
    t: Seq<(Seq<char>, int)>,
    nodes: Seq<ConstraintNodeView>,
)
    requires
        g.wf(),
        forall|k: int| 0 <= k < t.len() ==> 0 <= (#[trigger] t[k]).1 < g.nodes.len(),
        forall|k: int| 0 <= k < procs.len() ==> 0 <= (#[trigger] procs[k]).1 < g.nodes.len(),
        forall|k: int| 0 <= k < stmts.len() ==> 0 <= (#[trigger] stmts[k]).2 < g.nodes.len(),
    ensures
        ({
            let g2 = spec_link_refs(g, procs, stmts, t, nodes);
            &&& g.extends(g2)
            &&& g2.wf()
            &&& g2.nodes == g.nodes
        }),
    decreases nodes.len(),
{
    if nodes.len() == 0 {
        lemma_extends_refl(g);
    } else {
        lemma_link_refs_props(g, procs, stmts, t, nodes.drop_last());
        let g1 = spec_link_refs(g, procs, stmts, t, nodes.drop_last());
        lemma_link_one_props(g1, procs, stmts, t, nodes.last());
        lemma_extends_trans(g, g1, spec_link_one(g1, procs, stmts, t, nodes.last()));
    }
}

/// The statement index held as executable state.
pub struct StmtTable {
    pub entries: Vec<(String, usize, NodeId)>,
}

impl View for StmtTable {
    type V = Seq<(Seq<char>, int, int)>;

    open spec fn view(&self) -> Seq<(Seq<char>, int, int)> {
        self.entries@.map_values(|p: (String, usize, NodeId)| (p.0@, p.1 as int, p.2 as int))
    }
}

impl StmtTable {
    fn new() -> (t: StmtTable)
        ensures
            t@ == Seq::<(Seq<char>, int, int)>::empty(),
    {
        let t = StmtTable { entries: Vec::new() };
        proof {
            assert(t@ =~= Seq::<(Seq<char>, int, int)>::empty());
        }
        t
    }

    fn insert(&mut self, name: String, k: usize, id: NodeId)
        ensures
            final(self)@ == old(self)@.push((name@, k as int, id as int)),
    {
        self.entries.push((name, k, id));
        proof {
            assert(final(self)@ =~= old(self)@.push((name@, k as int, id as int)));
        }
    }

    pub(crate) fn get(&self, name: &String, k: usize) -> (r: Option<NodeId>)
        ensures
            match stmt_table_lookup(self@, name@, k as int) {
                Some(v) => r is Some && r.unwrap() as int == v,
                None => r is None,
            },
    {
        let mut j: usize = self.entries.len();
        proof {
            assert(self@.take(j as int) =~= self@);
        }
        while j > 0
            invariant
                j <= self.entries.len(),
                stmt_table_lookup(self@, name@, k as int) == stmt_table_lookup(
                    self@.take(j as int),
                    name@,
                    k as int,
                ),
            decreases j,
        {
            j -= 1;
            proof {
                assert(self@.take(j + 1).last() == self@[j as int]);
                assert(self@.take(j + 1).drop_last() =~= self@.take(j as int));
                assert(self@[j as int].0 == self.entries@[j as int].0@);
            }
            if self.entries[j].0 == *name && self.entries[j].1 == k {
                return Some(self.entries[j].2);
            }
        }
        proof {
            assert(self@.take(0) =~= Seq::<(Seq<char>, int, int)>::empty());
        }
        None
    }
}

/// The first attribute with the given key, if any.
pub(crate) fn attr_first_exec<'a>(attrs: &'a Vec<crate::graph::Attr>, key: &String) -> (r: Option<
    &'a String,
>)
    ensures
        match attr_first(crate::graph::attrs_view(attrs@), key@) {
            Some(v) => r is Some && r.unwrap()@ == v,
            None => r is None,
        },
{
    let mut i: usize = 0;
    proof {
        assert(crate::graph::attrs_view(attrs@).skip(0) =~= crate::graph::attrs_view(attrs@));
    }
    while i < attrs.len()
        invariant
            i <= attrs.len(),
            attr_first(crate::graph::attrs_view(attrs@), key@) == attr_first(
                crate::graph::attrs_view(attrs@).skip(i as int),
                key@,
            ),
        decreases attrs.len() - i,
    {
        proof {
            let av = crate::graph::attrs_view(attrs@);
            assert(av.skip(i as int).first() == av[i as int]);
            assert(av.skip(i as int).drop_first() =~= av.skip(i + 1));
        }
        if attrs[i].key == *key {
            return Some(&attrs[i].value);
        }
        i += 1;
    }
    proof {
        let av = crate::graph::attrs_view(attrs@);
        assert(av.skip(attrs@.len() as int) =~= Seq::<AttrView>::empty());
    }
    None
}

pub(crate) fn index_procs(graph: &Graph) -> (procs: IdTable)
    ensures
        procs@ == spec_proc_table(graph@.nodes),
{
    let mut procs = IdTable::new();
    let mut i: usize = 0;
    while i < graph.nodes.len()
        invariant
            i <= graph.nodes.len(),
            procs@ == spec_proc_table(graph@.nodes.take(i as int)),
        decreases graph.nodes.len() - i,
    {
        proof {
            assert(graph@.nodes.take(i + 1).drop_last() =~= graph@.nodes.take(i as int));
            assert(graph@.nodes.take(i + 1).last() == graph@.nodes[i as int]);
            assert(graph@.nodes[i as int] == graph.nodes@[i as int]@);
        }
        let node = &graph.nodes[i];
        match &node.kind {
            NodeKind::Proc { regime, name } => {
                procs.insert(name.clone(), node.id);
            },
            _ => {},
        }
        i += 1;
    }
    proof {
        assert(graph@.nodes.take(graph.nodes@.len() as int) =~= graph@.nodes);
    }
    procs
}

pub(crate) fn index_stmts_by_proc(graph: &Graph, procs: &IdTable) -> (stmts: StmtTable)
    requires
        graph@.wf(),
        procs@ == spec_proc_table(graph@.nodes),
    ensures
        stmts@ == spec_stmt_table(graph@, graph@.edges),
{
    let mut stmts = StmtTable::new();
    let index_key = String::from_str("index");
    let mut j: usize = 0;
    while j < graph.edges.len()
        invariant
            j <= graph.edges.len(),
            graph@.wf(),
            procs@ == spec_proc_table(graph@.nodes),
            index_key@ == "index"@,
            stmts@ == spec_stmt_table(graph@, graph@.edges.take(j as int)),
        decreases graph.edges.len() - j,
    {
        proof {
            assert(graph@.edges.take(j + 1).drop_last() =~= graph@.edges.take(j as int));
            assert(graph@.edges.take(j + 1).last() == graph@.edges[j as int]);
            assert(graph@.edges[j as int] == graph.edges@[j as int]@);
        }
        let edge = &graph.edges[j];
        if matches!(edge.kind, EdgeKind::Contains) {
            proof {
                assert(graph@.edges[j as int].from < graph@.nodes.len());
                assert(graph@.edges[j as int].to < graph@.nodes.len());
                assert(graph@.nodes[edge.from as int] == graph.nodes@[edge.from as int]@);
                assert(graph@.nodes[edge.to as int] == graph.nodes@[edge.to as int]@);
            }
            let from_node = &graph.nodes[edge.from];
            match &from_node.kind {
                NodeKind::Proc { regime, name } => {
                    let winning = match procs.get(name) {
                        Some(pid) => pid == edge.from,
                        None => false,
                    };
                    if winning {
                        let to_node = &graph.nodes[edge.to];
                        if matches!(to_node.kind, NodeKind::Stmt { .. }) {
                            match attr_first_exec(&to_node.attrs, &index_key) {
                                Some(value) => {
                                    match parse_usize(value.as_str()) {
                                        Some(k) => {
                                            stmts.insert(name.clone(), k, to_node.id);
                                        },
                                        None => {},
                                    }
                                },
                                None => {},
                            }
                        }
                    }
                },
                _ => {},
            }
        }
        proof {
            assert(stmts@ =~= spec_stmt_table(graph@, graph@.edges.take(j + 1)));
        }
        j += 1;
    }
    proof {
        assert(graph@.edges.take(graph.edges@.len() as int) =~= graph@.edges);
    }
    stmts
}

/// Link every constraint node that carries a resolvable reference to the
/// program tree: a Clause edge to the named statement where the position
/// resolves, else to the named procedure, else nothing; each edge is
/// annotated with what was resolved.  No node is added or changed, and
/// everything already in the graph is still present, unchanged, at the same
/// id.
pub fn link_constraint_ir_refs(
    graph: &mut Graph,
    constraints: &ConstraintsDocument,
    constraint_node_map: &IdTable,
)
    requires
        old(graph)@.wf(),
        forall|k: int|
            0 <= k < constraint_node_map@.len() ==> 0 <= (#[trigger] constraint_node_map@[k]).1
                < old(graph)@.nodes.len(),
    ensures
        final(graph)@ == spec_link_constraints(old(graph)@, constraints@, constraint_node_map@),
        final(graph)@.wf(),
        old(graph)@.extends(final(graph)@),
        final(graph)@.nodes == old(graph)@.nodes,
{
    let ghost g0 = graph@;
    let ghost docv = constraints@;
    let ghost tv = constraint_node_map@;
    let procs = index_procs(graph);
    let stmts = index_stmts_by_proc(graph, &procs);
    let ghost procsv = procs@;
    let ghost stmtsv = stmts@;
    proof {
        lemma_proc_table_range(g0.nodes);
        lemma_stmt_table_range(g0, g0.edges);
    }

    let mut i: usize = 0;
    while i < constraints.nodes.len()
        invariant
            i <= constraints.nodes.len(),
            g0.wf(),
            docv == constraints@,
            docv.nodes.len() == constraints.nodes@.len(),
            tv == constraint_node_map@,
            procsv == procs@,
            stmtsv == stmts@,
            forall|k: int| 0 <= k < tv.len() ==> 0 <= (#[trigger] tv[k]).1 < g0.nodes.len(),
            forall|k: int| 0 <= k < procsv.len() ==> 0 <= (#[trigger] procsv[k]).1 < g0.nodes.len(),
            forall|k: int| 0 <= k < stmtsv.len() ==> 0 <= (#[trigger] stmtsv[k]).2 < g0.nodes.len(),
            graph@ == spec_link_refs(g0, procsv, stmtsv, tv, docv.nodes.take(i as int)),
        decreases constraints.nodes.len() - i,
    {
        proof {
            assert(docv.nodes[i as int] == constraints.nodes@[i as int]@);
            lemma_link_refs_props(g0, procsv, stmtsv, tv, docv.nodes.take(i as int));
        }
        let ghost gpre = graph@;
        let cnode = &constraints.nodes[i];
        match &cnode.ir_ref {
            None => {},
            Some(ir_ref) => {
                match constraint_node_map.get(&cnode.id.0) {
                    None => {},
                    Some(cnode_id) => {
                        match &ir_ref.proc {
                            None => {},
                            Some(proc_name) => {
                                match procs.get(proc_name) {
                                    None => {},
                                    Some(proc_id) => {
                                        proof {
                                            crate::constraints::lemma_table_lookup_entry(
                                                tv,
                                                docv.nodes[i as int].id,
                                            );
                                            crate::constraints::lemma_table_lookup_entry(
                                                procsv,
                                                docv.nodes[i as int].ir_ref.unwrap().proc.unwrap(),
                                            );
                                        }
                                        let stmt_target: Option<NodeId> = match ir_ref.stmt_index {
                                            Some(k) => stmts.get(proc_name, k),
                                            None => None,
                                        };
                                        match stmt_target {
                                            Some(stmt_id) => {
                                                proof {
                                                    lemma_stmt_table_lookup_entry(
                                                        stmtsv,
                                                        docv.nodes[i as int].ir_ref.unwrap().proc.unwrap(),
                                                        docv.nodes[i as int].ir_ref.unwrap().stmt_index.unwrap(),
                                                    );
                                                }
                                                let ghost gb = graph@;
                                                let edge_id = graph.add_edge(
                                                    EdgeKind::Clause,
                                                    cnode_id,
                                                    stmt_id,
                                                );
                                                graph.add_edge_attr(
                                                    edge_id,
                                                    String::from_str("link"),
                                                    String::from_str("ir_ref"),
                                                );
                                                graph.add_edge_attr(
                                                    edge_id,
                                                    String::from_str("target"),
                                                    String::from_str("stmt"),
                                                );
                                                graph.add_edge_attr(
                                                    edge_id,
                                                    String::from_str("proc"),
                                                    proc_name.clone(),
                                                );
                                                let k = match ir_ref.stmt_index {
                                                    Some(k) => k,
                                                    None => 0,
                                                };
                                                graph.add_edge_attr(
                                                    edge_id,
                                                    String::from_str("stmt_index"),
                                                    usize_to_string(k),
                                                );
                                                match &ir_ref.symbol {
                                                    Some(sym) => {
                                                        graph.add_edge_attr(
                                                            edge_id,
                                                            String::from_str("symbol"),
                                                            sym.clone(),
                                                        );
                                                    },
                                                    None => {},
                                                }
                                            },
                                            None => {
                                                let ghost gb = graph@;
                                                let edge_id = graph.add_edge(
                                                    EdgeKind::Clause,
                                                    cnode_id,
                                                    proc_id,
                                                );
                                                graph.add_edge_attr(
                                                    edge_id,
                                                    String::from_str("link"),
                                                    String::from_str("ir_ref"),
                                                );
                                                graph.add_edge_attr(
                                                    edge_id,
                                                    String::from_str("target"),
                                                    String::from_str("proc"),
                                                );
                                                graph.add_edge_attr(
                                                    edge_id,
                                                    String::from_str("proc"),
                                                    proc_name.clone(),
                                                );
                                                match &ir_ref.symbol {
                                                    Some(sym) => {
                                                        graph.add_edge_attr(
                                                            edge_id,
                                                            String::from_str("symbol"),
                                                            sym.clone(),
                                                        );
                                                    },
                                                    None => {},
                                                }
                                            },
                                        }
                                    },
                                }
                            },
                        }
                    },
                }
            },
        }
        proof {
            assert(docv.nodes.take(i + 1).drop_last() =~= docv.nodes.take(i as int));
            assert(docv.nodes.take(i + 1).last() == docv.nodes[i as int]);
            assert(graph@ == spec_link_one(gpre, procsv, stmtsv, tv, docv.nodes[i as int]));
        }
        i += 1;
    }
    proof {
        assert(docv.nodes.take(docv.nodes.len() as int) =~= docv.nodes);
        lemma_link_refs_props(g0, procsv, stmtsv, tv, docv.nodes);
    }
}

} // verus!
