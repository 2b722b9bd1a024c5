//! Merging a constraint document into an existing graph.
//!
//! Every constraint node becomes one graph node, in document order, carrying
//! the constraint's own attributes plus two synthetic ones recording its
//! external id and kind.  Every constraint edge whose two endpoints resolve
//! among this document's nodes becomes one graph edge; an edge with an
//! unresolvable endpoint is silently dropped.  Nothing already in the graph
//! is touched.

use vstd::prelude::*;

use crate::constraints::{
    cattrs_view, table_lookup, ConstraintEdgeKind, ConstraintEdgeView, ConstraintNodeKind,
    ConstraintNodeView, ConstraintsDocument, ConstraintsDocumentView, IdTable,
};
use crate::graph::{
    attrs_view, lemma_extends_refl, lemma_extends_trans, lemma_push_edge_attr_extends_beyond,
    lemma_push_edge_attr_wf, lemma_push_edge_extends, lemma_push_edge_wf,
    lemma_push_node_attr_extends_beyond, lemma_push_node_attr_wf, lemma_push_node_extends,
    lemma_push_node_wf, Attr, AttrView, EdgeKind, Graph, GraphView, NodeKind, NodeKindView,
};
use vstd::string::StringExecFns;

verus! {

/// The display name of a constraint node kind.
pub open spec fn ckind_str(k: ConstraintNodeKind) -> Seq<char> {
    match k {
        ConstraintNodeKind::Predicate => "Predicate"@,
        ConstraintNodeKind::Rule => "Rule"@,
        ConstraintNodeKind::Obligation => "Obligation"@,
        ConstraintNodeKind::Witness => "Witness"@,
        ConstraintNodeKind::Proof => "Proof"@,
        ConstraintNodeKind::Diagnostic => "Diagnostic"@,
    }
}

/// The fixed mapping from a constraint edge's semantic tag onto the five
/// edge-kind styles the graph already has.
pub open spec fn spec_edge_kind_of(kind: ConstraintEdgeKind) -> EdgeKind {
    match kind {
        ConstraintEdgeKind::DependsOn => EdgeKind::Uses,
        ConstraintEdgeKind::Justifies => EdgeKind::Clause,
        ConstraintEdgeKind::Requires => EdgeKind::Contains,
        ConstraintEdgeKind::Blocks => EdgeKind::Next,
        ConstraintEdgeKind::Produces => EdgeKind::Uses,
        ConstraintEdgeKind::RefersTo => EdgeKind::Clause,
    }
}

fn map_constraint_edge_kind(kind: ConstraintEdgeKind) -> (r: EdgeKind)
    ensures
        r == spec_edge_kind_of(kind),
{
    match kind {
        ConstraintEdgeKind::DependsOn => EdgeKind::Uses,
        ConstraintEdgeKind::Justifies => EdgeKind::Clause,
        ConstraintEdgeKind::Requires => EdgeKind::Contains,
        ConstraintEdgeKind::Blocks => EdgeKind::Next,
        ConstraintEdgeKind::Produces => EdgeKind::Uses,
        ConstraintEdgeKind::RefersTo => EdgeKind::Clause,
    }
}

/// One constraint node merged: a Clause-kind graph node whose display payload
/// is the constraint's label and kind, carrying the constraint's attributes
/// and then `constraint_id` and `constraint_kind`.
pub open spec fn spec_overlay_node(
    g: GraphView,
    t: Seq<(Seq<char>, int)>,
    c: ConstraintNodeView,
) -> (GraphView, Seq<(Seq<char>, int)>) {
    let nid = g.next_node_id();
    let g1 = g.push_node(
        NodeKindView::Clause { key: "constraint"@, op: c.label, value: ckind_str(c.kind) },
        c.attrs,
    );
    let g2 = g1.push_node_attr(nid, AttrView { key: "constraint_id"@, value: c.id });
    let g3 = g2.push_node_attr(nid, AttrView { key: "constraint_kind"@, value: ckind_str(c.kind) });
    (g3, t.push((c.id, nid)))
}

pub open spec fn spec_overlay_nodes(
    g: GraphView,
    t: Seq<(Seq<char>, int)>,
    nodes: Seq<ConstraintNodeView>,
) -> (GraphView, Seq<(Seq<char>, int)>)
    decreases nodes.len(),
{
    if nodes.len() == 0 {
        (g, t)
    } else {
        let (g1, t1) = spec_overlay_nodes(g, t, nodes.drop_last());
        spec_overlay_node(g1, t1, nodes.last())
    }
}

/// Copying a constraint edge's attributes onto a graph edge.
pub open spec fn spec_push_edge_attrs(g: GraphView, eid: int, attrs: Seq<AttrView>) -> GraphView
    decreases attrs.len(),
{
    if attrs.len() == 0 {
        g
    } else {
        spec_push_edge_attrs(g, eid, attrs.drop_last()).push_edge_attr(eid, attrs.last())
    }
}

/// One constraint edge merged, when both endpoints resolve through the id
/// table; otherwise the graph is unchanged.
pub open spec fn spec_overlay_edge(
    g: GraphView,
    t: Seq<(Seq<char>, int)>,
    e: ConstraintEdgeView,
) -> GraphView {
    match (table_lookup(t, e.from), table_lookup(t, e.to)) {
        (Some(from), Some(to)) => {
            let eid = g.next_edge_id();
            let g1 = g.push_edge(spec_edge_kind_of(e.kind), from, to);
            spec_push_edge_attrs(g1, eid, e.attrs)
        },
        _ => g,
    }
}

pub open spec fn spec_overlay_edges(
    g: GraphView,
    t: Seq<(Seq<char>, int)>,
    edges: Seq<ConstraintEdgeView>,
) -> GraphView
    decreases edges.len(),
{
    if edges.len() == 0 {
        g
    } else {
        spec_overlay_edge(spec_overlay_edges(g, t, edges.drop_last()), t, edges.last())
    }
}

/// The whole overlay: all nodes in document order, then all resolvable edges
/// in document order, and the id table built from the nodes.
pub open spec fn spec_overlay_constraints(g: GraphView, doc: ConstraintsDocumentView) -> (
    GraphView,
    Seq<(Seq<char>, int)>,
) {
    let (g1, t) = spec_overlay_nodes(g, Seq::empty(), doc.nodes);
    (spec_overlay_edges(g1, t, doc.edges), t)
}

/// Structural facts of the node phase: the old graph survives as a prefix,
/// well-formedness is kept, no edge is touched, and every id in the table
/// names an existing node.
pub proof fn lemma_overlay_nodes_props(
    g: GraphView,
    t: Seq<(Seq<char>, int)>,
    nodes: Seq<ConstraintNodeView>,
)
    requires
        g.wf(),
        forall|k: int| 0 <= k < t.len() ==> 0 <= (#[trigger] t[k]).1 < g.nodes.len(),
    ensures
        ({
            let (g2, t2) = spec_overlay_nodes(g, t, nodes);
            &&& g.extends(g2)
            &&& g2.wf()
            &&& g2.edges == g.edges
            &&& g2.nodes.len() == g.nodes.len() + nodes.len()
            &&& forall|k: int| 0 <= k < t2.len() ==> 0 <= (#[trigger] t2[k]).1 < g2.nodes.len()
        }),
    decreases nodes.len(),
{
    if nodes.len() == 0 {
        lemma_extends_refl(g);
    } else {
        lemma_overlay_nodes_props(g, t, nodes.drop_last());
        let (g1, t1) = spec_overlay_nodes(g, t, nodes.drop_last());
        let c = nodes.last();
        let nid = g1.next_node_id();
        let ga = g1.push_node(
            NodeKindView::Clause { key: "constraint"@, op: c.label, value: ckind_str(c.kind) },
            c.attrs,
        );
        let gb = ga.push_node_attr(nid, AttrView { key: "constraint_id"@, value: c.id });
        let gc = gb.push_node_attr(
            nid,
            AttrView { key: "constraint_kind"@, value: ckind_str(c.kind) },
        );
        lemma_push_node_wf(
            g1,
            NodeKindView::Clause { key: "constraint"@, op: c.label, value: ckind_str(c.kind) },
            c.attrs,
        );
        lemma_push_node_attr_wf(ga, nid, AttrView { key: "constraint_id"@, value: c.id });
        lemma_push_node_attr_wf(
            gb,
            nid,
            AttrView { key: "constraint_kind"@, value: ckind_str(c.kind) },
        );
        lemma_push_node_extends(
            g1,
            NodeKindView::Clause { key: "constraint"@, op: c.label, value: ckind_str(c.kind) },
            c.attrs,
        );
        lemma_extends_trans(g, g1, ga);
        lemma_push_node_attr_extends_beyond(g, ga, nid, AttrView {
            key: "constraint_id"@,
            value: c.id,
        });
        lemma_push_node_attr_extends_beyond(g, gb, nid, AttrView {
            key: "constraint_kind"@,
            value: ckind_str(c.kind),
        });
        let (g2, t2) = spec_overlay_nodes(g, t, nodes);
        assert(g2 == gc);
        assert(t2 == t1.push((c.id, nid)));
        assert forall|k: int| 0 <= k < t2.len() implies 0 <= (#[trigger] t2[k]).1
            < g2.nodes.len() by {
            if k < t1.len() {
                assert(t2[k] == t1[k]);
            }
        };
    }
}

/// Structural facts of copying attributes onto a fresh edge.
pub proof fn lemma_push_edge_attrs_props(
    base: GraphView,
    g: GraphView,
    eid: int,
    attrs: Seq<AttrView>,
)
    requires
        g.wf(),
        base.extends(g),
        base.edges.len() <= eid < g.edges.len(),
    ensures
        ({
            let g2 = spec_push_edge_attrs(g, eid, attrs);
            &&& g2.wf()
            &&& base.extends(g2)
            &&& g2.nodes == g.nodes
            &&& g2.edges.len() == g.edges.len()
        }),
    decreases attrs.len(),
{
    if attrs.len() > 0 {
        lemma_push_edge_attrs_props(base, g, eid, attrs.drop_last());
        let g1 = spec_push_edge_attrs(g, eid, attrs.drop_last());
        lemma_push_edge_attr_wf(g1, eid, attrs.last());
        lemma_push_edge_attr_extends_beyond(base, g1, eid, attrs.last());
    }
}

/// Structural facts of the edge phase: the graph before it survives as a
/// prefix, well-formedness is kept, and no node is touched.
pub proof fn lemma_overlay_edges_props(
    g: GraphView,
    t: Seq<(Seq<char>, int)>,
    edges: Seq<ConstraintEdgeView>,
)
    requires
        g.wf(),
        forall|k: int| 0 <= k < t.len() ==> 0 <= (#[trigger] t[k]).1 < g.nodes.len(),
    ensures
        ({
            let g2 = spec_overlay_edges(g, t, edges);
            &&& g.extends(g2)
            &&& g2.wf()
            &&& g2.nodes == g.nodes
        }),
    decreases edges.len(),
{
    if edges.len() == 0 {
        lemma_extends_refl(g);
    } else {
        lemma_overlay_edges_props(g, t, edges.drop_last());
        let g1 = spec_overlay_edges(g, t, edges.drop_last());
        let e = edges.last();
        match (table_lookup(t, e.from), table_lookup(t, e.to)) {
            (Some(from), Some(to)) => {
                crate::constraints::lemma_table_lookup_entry(t, e.from);
                crate::constraints::lemma_table_lookup_entry(t, e.to);
                let eid = g1.next_edge_id();
                let ga = g1.push_edge(spec_edge_kind_of(e.kind), from, to);
                lemma_push_edge_wf(g1, spec_edge_kind_of(e.kind), from, to);
                lemma_push_edge_extends(g1, spec_edge_kind_of(e.kind), from, to);
                lemma_extends_trans(g, g1, ga);
                lemma_push_edge_attrs_props(g, ga, eid, e.attrs);
            },
            (Some(_), None) => {
            },
            (None, Some(_)) => {
            },
            (None, None) => {
            },
        }
    }
}

fn clone_cattrs(attrs: &Vec<crate::constraints::ConstraintAttr>) -> (r: Vec<Attr>)
    ensures
        attrs_view(r@) == cattrs_view(attrs@),
{
    let mut r: Vec<Attr> = Vec::new();
    let mut j: usize = 0;
    while j < attrs.len()
        invariant
            j <= attrs.len(),
            attrs_view(r@) == cattrs_view(attrs@.take(j as int)),
        decreases attrs.len() - j,
    {
        let a = &attrs[j];
        let ghost old_r = r@;
        r.push(Attr { key: a.key.clone(), value: a.value.clone() });
        proof {
            assert(attrs_view(old_r).len() == old_r.len());
            assert(cattrs_view(attrs@.take(j as int)).len() == j);
            assert(old_r.len() == j);
            assert(r@.len() == j + 1);
            assert(r@[j as int].key@ == attrs@[j as int].key@);
            assert(r@[j as int].value@ == attrs@[j as int].value@);
            assert forall|i: int| 0 <= i < j implies attrs_view(r@)[i] == cattrs_view(
                attrs@.take(j + 1),
            )[i] by {
                assert(r@[i] == old_r[i]);
                assert(attrs_view(old_r)[i] == cattrs_view(attrs@.take(j as int))[i]);
                assert(attrs@.take(j as int)[i] == attrs@[i]);
                assert(attrs@.take(j + 1)[i] == attrs@[i]);
            };
            assert(attrs_view(r@) =~~= cattrs_view(attrs@.take(j + 1)));
        }
        j += 1;
    }
    proof {
        assert(attrs@.take(attrs@.len() as int) =~= attrs@);
    }
    r
}

fn ckind_str_exec(k: ConstraintNodeKind) -> (r: String)
    ensures
        r@ == ckind_str(k),
{
    match k {
        ConstraintNodeKind::Predicate => String::from_str("Predicate"),
        ConstraintNodeKind::Rule => String::from_str("Rule"),
        ConstraintNodeKind::Obligation => String::from_str("Obligation"),
        ConstraintNodeKind::Witness => String::from_str("Witness"),
        ConstraintNodeKind::Proof => String::from_str("Proof"),
        ConstraintNodeKind::Diagnostic => String::from_str("Diagnostic"),
    }
}

/// Overlay a constraint document onto an existing graph.
///
/// Returns the map from each constraint's external string id to the graph
/// node id it received; a repeated external id is bound to the node created
/// last.  Everything already in the graph is still present, unchanged, at
/// the same id.
pub fn overlay_constraints(graph: &mut Graph, constraints: &ConstraintsDocument) -> (map: IdTable)
    requires
        old(graph)@.wf(),
    ensures
        final(graph)@ == spec_overlay_constraints(old(graph)@, constraints@).0,
        map@ == spec_overlay_constraints(old(graph)@, constraints@).1,
        final(graph)@.wf(),
        old(graph)@.extends(final(graph)@),
{
    let ghost g0 = graph@;
    let ghost docv = constraints@;
    let mut map = IdTable::new();

    let mut i: usize = 0;
    while i < constraints.nodes.len()
        invariant
            i <= constraints.nodes.len(),
            g0.wf(),
            docv == constraints@,
            docv.nodes.len() == constraints.nodes@.len(),
            graph@ == spec_overlay_nodes(g0, Seq::empty(), docv.nodes.take(i as int)).0,
            map@ == spec_overlay_nodes(g0, Seq::empty(), docv.nodes.take(i as int)).1,
        decreases constraints.nodes.len() - i,
    {
        proof {
            assert(docv.nodes[i as int] == constraints.nodes@[i as int]@);
            lemma_overlay_nodes_props(g0, Seq::empty(), docv.nodes.take(i as int));
        }
        let cnode = &constraints.nodes[i];
        let attrs = clone_cattrs(&cnode.attrs);
        let kind_str = ckind_str_exec(cnode.kind);
        let node_id = graph.add_node_with_attrs(
            NodeKind::Clause {
                key: String::from_str("constraint"),
                op: cnode.label.clone(),
                value: kind_str,
            },
            attrs,
        );
        graph.add_node_attr(node_id, String::from_str("constraint_id"), cnode.id.0.clone());
        graph.add_node_attr(
            node_id,
            String::from_str("constraint_kind"),
            ckind_str_exec(cnode.kind),
        );
        map.insert(cnode.id.0.clone(), node_id);
        proof {
            assert(docv.nodes.take(i + 1).drop_last() =~= docv.nodes.take(i as int));
            assert(docv.nodes.take(i + 1).last() == docv.nodes[i as int]);
            assert(graph@ =~~= spec_overlay_nodes(g0, Seq::empty(), docv.nodes.take(i + 1)).0);
            assert(map@ =~~= spec_overlay_nodes(g0, Seq::empty(), docv.nodes.take(i + 1)).1);
        }
        i += 1;
    }
    proof {
        assert(docv.nodes.take(docv.nodes.len() as int) =~= docv.nodes);
    }

    let ghost g1 = graph@;
    let ghost tv = map@;
    proof {
        lemma_overlay_nodes_props(g0, Seq::empty(), docv.nodes);
    }

    let mut j: usize = 0;
    while j < constraints.edges.len()
        invariant
            j <= constraints.edges.len(),
            g1.wf(),
            docv == constraints@,
            docv.edges.len() == constraints.edges@.len(),
            tv == map@,
            forall|k: int| 0 <= k < tv.len() ==> 0 <= (#[trigger] tv[k]).1 < g1.nodes.len(),
            graph@ == spec_overlay_edges(g1, tv, docv.edges.take(j as int)),
        decreases constraints.edges.len() - j,
    {
        proof {
            assert(docv.edges[j as int] == constraints.edges@[j as int]@);
            lemma_overlay_edges_props(g1, tv, docv.edges.take(j as int));
        }
        let cedge = &constraints.edges[j];
        let from = map.get(&cedge.from.0);
        let to = map.get(&cedge.to.0);
        if let (Some(from_id), Some(to_id)) = (from, to) {
            proof {
                crate::constraints::lemma_table_lookup_entry(tv, docv.edges[j as int].from);
                crate::constraints::lemma_table_lookup_entry(tv, docv.edges[j as int].to);
            }
            let kind = map_constraint_edge_kind(cedge.kind);
            let ghost gb = graph@;
            let edge_id = graph.add_edge(kind, from_id, to_id);
            let ghost ga = graph@;
            proof {
                lemma_push_edge_extends(gb, kind, from_id as int, to_id as int);
            }
            let mut ai: usize = 0;
            while ai < cedge.attrs.len()
                invariant
                    ai <= cedge.attrs.len(),
                    gb.wf(),
                    ga.wf(),
                    gb.extends(ga),
                    ga == gb.push_edge(
                        spec_edge_kind_of(cedge@.kind),
                        table_lookup(tv, cedge@.from).unwrap(),
                        table_lookup(tv, cedge@.to).unwrap(),
                    ),
                    edge_id as int == gb.edges.len(),
                    ga.edges.len() == gb.edges.len() + 1,
                    cedge@.attrs.len() == cedge.attrs@.len(),
                    graph@ == spec_push_edge_attrs(ga, edge_id as int, cedge@.attrs.take(ai as int)),
                decreases cedge.attrs.len() - ai,
            {
                proof {
                    lemma_push_edge_attrs_props(
                        gb,
                        ga,
                        edge_id as int,
                        cedge@.attrs.take(ai as int),
                    );
                    assert(cedge@.attrs[ai as int] == AttrView {
                        key: cedge.attrs@[ai as int].key@,
                        value: cedge.attrs@[ai as int].value@,
                    });
                }
                let a = &cedge.attrs[ai];
                graph.add_edge_attr(edge_id, a.key.clone(), a.value.clone());
                proof {
                    assert(cedge@.attrs.take(ai + 1).drop_last() =~= cedge@.attrs.take(ai as int));
                    assert(cedge@.attrs.take(ai + 1).last() == cedge@.attrs[ai as int]);
                }
                ai += 1;
            }
            proof {
                assert(cedge@.attrs.take(cedge@.attrs.len() as int) =~= cedge@.attrs);
            }
        }
        proof {
            assert(docv.edges.take(j + 1).drop_last() =~= docv.edges.take(j as int));
            assert(docv.edges.take(j + 1).last() == docv.edges[j as int]);
            assert(graph@ == spec_overlay_edges(g1, tv, docv.edges.take(j + 1)));
        }
        j += 1;
    }
    proof {
        assert(docv.edges.take(docv.edges.len() as int) =~= docv.edges);
        lemma_overlay_edges_props(g1, tv, docv.edges);
        lemma_extends_trans(g0, g1, graph@);
    }
    map
}

/// An external id that names none of the document's nodes stays unbound.
proof fn lemma_overlay_table_no_binding(
    g: GraphView,
    t: Seq<(Seq<char>, int)>,
    nodes: Seq<ConstraintNodeView>,
    x: Seq<char>,
)
    requires
        table_lookup(t, x) is None,
        forall|i: int| 0 <= i < nodes.len() ==> (#[trigger] nodes[i]).id != x,
    ensures
        table_lookup(spec_overlay_nodes(g, t, nodes).1, x) is None,
    decreases nodes.len(),
{
    if nodes.len() > 0 {
        assert forall|i: int| 0 <= i < nodes.drop_last().len() implies (
        #[trigger] nodes.drop_last()[i]).id != x by {
            assert(nodes.drop_last()[i] == nodes[i]);
        };
        lemma_overlay_table_no_binding(g, t, nodes.drop_last(), x);
        let (g1, t1) = spec_overlay_nodes(g, t, nodes.drop_last());
        let t2 = spec_overlay_nodes(g, t, nodes).1;
        assert(t2 == t1.push((nodes.last().id, g1.next_node_id())));
        assert(t2.drop_last() =~= t1);
        assert(nodes.last().id != x);
    }
}

/// A constraint edge whose `to` id names none of the document's nodes is
/// dropped: overlaying the document with that edge appended yields exactly
/// the graph and id map the document alone yields.
pub proof fn lemma_unresolvable_edge_dropped(
    g: GraphView,
    doc: ConstraintsDocumentView,
    e: ConstraintEdgeView,
)
    requires
        forall|i: int| 0 <= i < doc.nodes.len() ==> (#[trigger] doc.nodes[i]).id != e.to,
    ensures
        spec_overlay_constraints(
            g,
            ConstraintsDocumentView { nodes: doc.nodes, edges: doc.edges.push(e) },
        ) == spec_overlay_constraints(g, doc),
{
    let doc2 = ConstraintsDocumentView { nodes: doc.nodes, edges: doc.edges.push(e) };
    let (g1, t) = spec_overlay_nodes(g, Seq::empty(), doc.nodes);
    lemma_overlay_table_no_binding(g, Seq::empty(), doc.nodes, e.to);
    assert(doc.edges.push(e).drop_last() =~= doc.edges);
    assert(doc.edges.push(e).last() == e);
    assert(spec_overlay_edges(g1, t, doc.edges.push(e)) == spec_overlay_edge(
        spec_overlay_edges(g1, t, doc.edges),
        t,
        e,
    ));
    assert(table_lookup(t, e.to) is None);
}

} // verus!
