//! Subgraph extraction: the induced subgraph of a node-id set.
//!
//! The result holds the graph's nodes whose id is in the set and the edges
//! whose two endpoints are both in the set, each in original relative order
//! and with ids, kinds and attributes unchanged — ids are not renumbered, so
//! references into the unfocused graph stay valid.

use vstd::prelude::*;

use crate::graph::{
    Attr, Edge, EdgeView, Graph, GraphView, Node, NodeIdSet, NodeKind, NodeView,
};

verus! {

/// The nodes whose id is in the set, in order.
pub open spec fn spec_focus_nodes(nodes: Seq<NodeView>, s: Set<int>) -> Seq<NodeView>
    decreases nodes.len(),
{
    if nodes.len() == 0 {
        Seq::empty()
    } else {
        let r = spec_focus_nodes(nodes.drop_last(), s);
        if s.contains(nodes.last().id) {
            r.push(nodes.last())
        } else {
            r
        }
    }
}

/// The edges whose two endpoints are both in the set, in order.
pub open spec fn spec_focus_edges(edges: Seq<EdgeView>, s: Set<int>) -> Seq<EdgeView>
    decreases edges.len(),
{
    if edges.len() == 0 {
        Seq::empty()
    } else {
        let r = spec_focus_edges(edges.drop_last(), s);
        if s.contains(edges.last().from) && s.contains(edges.last().to) {
            r.push(edges.last())
        } else {
            r
        }
    }
}

/// The induced subgraph of a node-id set.
pub open spec fn spec_focus(g: GraphView, s: Set<int>) -> GraphView {
    GraphView { nodes: spec_focus_nodes(g.nodes, s), edges: spec_focus_edges(g.edges, s) }
}

proof fn lemma_focus_nodes_members(nodes: Seq<NodeView>, s: Set<int>)
    ensures
        forall|i: int|
            0 <= i < spec_focus_nodes(nodes, s).len() ==> s.contains(
                (#[trigger] spec_focus_nodes(nodes, s)[i]).id,
            ),
    decreases nodes.len(),
{
    if nodes.len() > 0 {
        lemma_focus_nodes_members(nodes.drop_last(), s);
        let r = spec_focus_nodes(nodes.drop_last(), s);
        assert forall|i: int| 0 <= i < spec_focus_nodes(nodes, s).len() implies s.contains(
            (#[trigger] spec_focus_nodes(nodes, s)[i]).id,
        ) by {
            if i < r.len() {
                assert(spec_focus_nodes(nodes, s)[i] == r[i]);
            }
        };
    }
}

proof fn lemma_focus_edges_members(edges: Seq<EdgeView>, s: Set<int>)
    ensures
        forall|i: int|
            0 <= i < spec_focus_edges(edges, s).len() ==> s.contains(
                (#[trigger] spec_focus_edges(edges, s)[i]).from,
            ) && s.contains(spec_focus_edges(edges, s)[i].to),
    decreases edges.len(),
{
    if edges.len() > 0 {
        lemma_focus_edges_members(edges.drop_last(), s);
        let r = spec_focus_edges(edges.drop_last(), s);
        assert forall|i: int| 0 <= i < spec_focus_edges(edges, s).len() implies s.contains(
            (#[trigger] spec_focus_edges(edges, s)[i]).from,
        ) && s.contains(spec_focus_edges(edges, s)[i].to) by {
            if i < r.len() {
                assert(spec_focus_edges(edges, s)[i] == r[i]);
            }
        };
    }
}

proof fn lemma_focus_nodes_all_kept(nodes: Seq<NodeView>, s: Set<int>)
    requires
        forall|i: int| 0 <= i < nodes.len() ==> s.contains((#[trigger] nodes[i]).id),
    ensures
        spec_focus_nodes(nodes, s) == nodes,
    decreases nodes.len(),
{
    if nodes.len() > 0 {
        assert forall|i: int| 0 <= i < nodes.drop_last().len() implies s.contains(
            (#[trigger] nodes.drop_last()[i]).id,
        ) by {
            assert(nodes.drop_last()[i] == nodes[i]);
        };
        lemma_focus_nodes_all_kept(nodes.drop_last(), s);
        assert(s.contains(nodes.last().id));
        assert(spec_focus_nodes(nodes, s) =~= nodes);
    } else {
        assert(spec_focus_nodes(nodes, s) =~= nodes);
    }
}

proof fn lemma_focus_edges_all_kept(edges: Seq<EdgeView>, s: Set<int>)
    requires
        forall|i: int|
            0 <= i < edges.len() ==> s.contains((#[trigger] edges[i]).from) && s.contains(
                edges[i].to,
            ),
    ensures
        spec_focus_edges(edges, s) == edges,
    decreases edges.len(),
{
    if edges.len() > 0 {
        assert forall|i: int| 0 <= i < edges.drop_last().len() implies s.contains(
            (#[trigger] edges.drop_last()[i]).from,
        ) && s.contains(edges.drop_last()[i].to) by {
            assert(edges.drop_last()[i] == edges[i]);
        };
        lemma_focus_edges_all_kept(edges.drop_last(), s);
        assert(s.contains(edges.last().from) && s.contains(edges.last().to));
        assert(spec_focus_edges(edges, s) =~= edges);
    } else {
        assert(spec_focus_edges(edges, s) =~= edges);
    }
}

/// Focus idempotence: focusing an already-focused graph on the same id set
/// changes nothing.
pub proof fn lemma_focus_idempotent(g: GraphView, s: Set<int>)
    ensures
        spec_focus(spec_focus(g, s), s) == spec_focus(g, s),
{
    lemma_focus_nodes_members(g.nodes, s);
    lemma_focus_edges_members(g.edges, s);
    lemma_focus_nodes_all_kept(spec_focus_nodes(g.nodes, s), s);
    lemma_focus_edges_all_kept(spec_focus_edges(g.edges, s), s);
}

/// Every edge whose two endpoints are both in the set is kept by the focus
/// pass, unchanged.
pub proof fn lemma_focus_keeps_edges(g: GraphView, s: Set<int>, j: int)
    requires
        0 <= j < g.edges.len(),
        s.contains(g.edges[j].from),
        s.contains(g.edges[j].to),
    ensures
        exists|i: int|
            0 <= i < spec_focus(g, s).edges.len() && #[trigger] spec_focus(g, s).edges[i]
                == g.edges[j],
{
    lemma_focus_edges_keeps(g.edges, s, j);
    let i = choose|i: int|
        0 <= i < spec_focus_edges(g.edges, s).len() && #[trigger] spec_focus_edges(g.edges, s)[i]
            == g.edges[j];
    assert(spec_focus(g, s).edges[i] == g.edges[j]);
}

proof fn lemma_focus_edges_keeps(edges: Seq<EdgeView>, s: Set<int>, j: int)
    requires
        0 <= j < edges.len(),
        s.contains(edges[j].from),
        s.contains(edges[j].to),
    ensures
        exists|i: int|
            0 <= i < spec_focus_edges(edges, s).len() && #[trigger] spec_focus_edges(edges, s)[i]
                == edges[j],
    decreases edges.len(),
{
    let r = spec_focus_edges(edges.drop_last(), s);
    if j == edges.len() - 1 {
        let out = spec_focus_edges(edges, s);
        assert(out[out.len() - 1] == edges[j]);
    } else {
        assert(edges.drop_last()[j] == edges[j]);
        lemma_focus_edges_keeps(edges.drop_last(), s, j);
        let i = choose|i: int|
            0 <= i < r.len() && #[trigger] r[i] == edges.drop_last()[j];
        assert(spec_focus_edges(edges, s)[i] == r[i]);
    }
}

fn clone_attrs(attrs: &Vec<Attr>) -> (r: Vec<Attr>)
    ensures
        r@ == attrs@,
{
    let mut r: Vec<Attr> = Vec::new();
    let mut i: usize = 0;
    while i < attrs.len()
        invariant
            i <= attrs.len(),
            r@ == attrs@.take(i as int),
        decreases attrs.len() - i,
    {
        let a = &attrs[i];
        r.push(Attr { key: a.key.clone(), value: a.value.clone() });
        proof {
            assert(r@ =~= attrs@.take(i + 1));
        }
        i += 1;
    }
    proof {
        assert(attrs@.take(attrs@.len() as int) =~= attrs@);
    }
    r
}

fn clone_kind(kind: &NodeKind) -> (r: NodeKind)
    ensures
        r == *kind,
{
    match kind {
        NodeKind::Program => NodeKind::Program,
        NodeKind::Forge { name } => NodeKind::Forge { name: name.clone() },
        NodeKind::Shape { name } => NodeKind::Shape { name: name.clone() },
        NodeKind::Proc { regime, name } => NodeKind::Proc {
            regime: regime.clone(),
            name: name.clone(),
        },
        NodeKind::Uses { resource } => NodeKind::Uses { resource: resource.clone() },
        NodeKind::Bind { source, target } => NodeKind::Bind {
            source: source.clone(),
            target: target.clone(),
        },
        NodeKind::Clause { key, op, value } => NodeKind::Clause {
            key: key.clone(),
            op: op.clone(),
            value: value.clone(),
        },
        NodeKind::Stmt { label } => NodeKind::Stmt { label: label.clone() },
        NodeKind::TraceEvent { label } => NodeKind::TraceEvent { label: label.clone() },
    }
}

fn clone_node(node: &Node) -> (r: Node)
    ensures
        r@ == node@,
{
    let r = Node { id: node.id, kind: clone_kind(&node.kind), attrs: clone_attrs(&node.attrs) };
    proof {
        assert(r@ =~= node@);
    }
    r
}

fn clone_edge(edge: &Edge) -> (r: Edge)
    ensures
        r@ == edge@,
{
    let r = Edge {
        id: edge.id,
        kind: edge.kind,
        from: edge.from,
        to: edge.to,
        attrs: clone_attrs(&edge.attrs),
    };
    proof {
        assert(r@ =~= edge@);
    }
    r
}

/// Produce the induced subgraph of the given node-id set: its nodes are the
/// graph's nodes whose id is in the set, its edges the graph's edges whose
/// two endpoints are both in the set, in original order, unchanged and not
/// renumbered.  The original graph is untouched; an empty set yields an
/// empty graph.
pub fn focus_graph(graph: &Graph, focus_nodes: &NodeIdSet) -> (r: Graph)
    ensures
        r@ == spec_focus(graph@, focus_nodes@),
{
    let mut nodes: Vec<Node> = Vec::new();
    let mut i: usize = 0;
    while i < graph.nodes.len()
        invariant
            i <= graph.nodes.len(),
            nodes@.map_values(|n: Node| n@) == spec_focus_nodes(
                graph@.nodes.take(i as int),
                focus_nodes@,
            ),
        decreases graph.nodes.len() - i,
    {
        proof {
            assert(graph@.nodes.take(i + 1).drop_last() =~= graph@.nodes.take(i as int));
            assert(graph@.nodes.take(i + 1).last() == graph@.nodes[i as int]);
            assert(graph@.nodes[i as int] == graph.nodes@[i as int]@);
        }
        let node = &graph.nodes[i];
        if focus_nodes.contains(node.id) {
            nodes.push(clone_node(node));
        }
        proof {
            assert(nodes@.map_values(|n: Node| n@) =~= spec_focus_nodes(
                graph@.nodes.take(i + 1),
                focus_nodes@,
            ));
        }
        i += 1;
    }
    proof {
        assert(graph@.nodes.take(graph.nodes@.len() as int) =~= graph@.nodes);
    }

    let mut edges: Vec<Edge> = Vec::new();
    let mut j: usize = 0;
    while j < graph.edges.len()
        invariant
            j <= graph.edges.len(),
            edges@.map_values(|e: Edge| e@) == spec_focus_edges(
                graph@.edges.take(j as int),
                focus_nodes@,
            ),
        decreases graph.edges.len() - j,
    {
        proof {
            assert(graph@.edges.take(j + 1).drop_last() =~= graph@.edges.take(j as int));
            assert(graph@.edges.take(j + 1).last() == graph@.edges[j as int]);
            assert(graph@.edges[j as int] == graph.edges@[j as int]@);
        }
        let edge = &graph.edges[j];
        if focus_nodes.contains(edge.from) && focus_nodes.contains(edge.to) {
            edges.push(clone_edge(edge));
        }
        proof {
            assert(edges@.map_values(|e: Edge| e@) =~= spec_focus_edges(
                graph@.edges.take(j + 1),
                focus_nodes@,
            ));
        }
        j += 1;
    }
    proof {
        assert(graph@.edges.take(graph.edges@.len() as int) =~= graph@.edges);
    }

    let r = Graph { nodes, edges };
    proof {
        assert(r@ =~= spec_focus(graph@, focus_nodes@));
    }
    r
}

} // verus!
