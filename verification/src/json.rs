//! The value-level JSON model of a graph, as the renderers serialize it:
//! per node and edge a kind string, a display label, and the attribute list
//! collapsed to one value per key — the value written last wins — sorted by
//! key.  Turning this model into JSON text is plain serialization and
//! happens outside the library.

use vstd::prelude::*;

use crate::dot::{attrs_sorted, edge_label};
use crate::graph::{attrs_view, Attr, AttrView, Graph, Node, NodeKindView, NodeView};

verus! {

/// The kind string of a node.
pub open spec fn json_kind(k: NodeKindView) -> Seq<char> {
    match k {
        NodeKindView::Program => "Program"@,
        NodeKindView::Forge { name } => "Forge"@,
        NodeKindView::Shape { name } => "Shape"@,
        NodeKindView::Proc { regime, name } => "Proc"@,
        NodeKindView::Uses { resource } => "Uses"@,
        NodeKindView::Bind { source, target } => "Bind"@,
        NodeKindView::Clause { key, op, value } => "Clause"@,
        NodeKindView::Stmt { label } => "Stmt"@,
        NodeKindView::TraceEvent { label } => "TraceEvent"@,
    }
}

/// The display label of a node.
pub open spec fn json_label(k: NodeKindView) -> Seq<char> {
    match k {
        NodeKindView::Program => "Program"@,
        NodeKindView::Forge { name } => name,
        NodeKindView::Shape { name } => name,
        NodeKindView::Proc { regime, name } => "["@ + regime + "] "@ + name,
        NodeKindView::Uses { resource } => resource,
        NodeKindView::Bind { source, target } => source + " -> "@ + target,
        NodeKindView::Clause { key, op, value } => key + " "@ + op + " "@ + value,
        NodeKindView::Stmt { label } => label,
        NodeKindView::TraceEvent { label } => label,
    }
}

/// Replacing the value under an existing key, in place, or appending a new
/// binding.
pub open spec fn upsert(items: Seq<AttrView>, a: AttrView) -> Seq<AttrView>
    decreases items.len(),
{
    if items.len() == 0 {
        seq![a]
    } else if items.first().key == a.key {
        seq![a] + items.drop_first()
    } else {
        seq![items.first()] + upsert(items.drop_first(), a)
    }
}

/// Collapsing an attribute list to one binding per key; the value written
/// last wins.
pub open spec fn collapse(attrs: Seq<AttrView>) -> Seq<AttrView>
    decreases attrs.len(),
{
    if attrs.len() == 0 {
        Seq::empty()
    } else {
        upsert(collapse(attrs.drop_last()), attrs.last())
    }
}

/// The attribute map of the JSON model: collapsed, then sorted by key.
pub open spec fn json_attrs(attrs: Seq<AttrView>) -> Seq<AttrView> {
    attrs_sorted(collapse(attrs))
}

#[verifier::ext_equal]
pub ghost struct NodeJsonView {
    pub id: int,
    pub kind: Seq<char>,
    pub label: Seq<char>,
    pub attrs: Seq<AttrView>,
}

#[verifier::ext_equal]
pub ghost struct EdgeJsonView {
    pub id: int,
    pub kind: Seq<char>,
    pub from: int,
    pub to: int,
    pub attrs: Seq<AttrView>,
}

#[verifier::ext_equal]
pub ghost struct GraphJsonView {
    pub nodes: Seq<NodeJsonView>,
    pub edges: Seq<EdgeJsonView>,
}

#[derive(Debug, Clone)]
pub struct NodeJson {
    pub id: usize,
    pub kind: String,
    pub label: String,
    pub attrs: Vec<Attr>,
}

#[derive(Debug, Clone)]
pub struct EdgeJson {
    pub id: usize,
    pub kind: String,
    pub from: usize,
    pub to: usize,
    pub attrs: Vec<Attr>,
}

#[derive(Debug, Clone)]
pub struct GraphJson {
    pub nodes: Vec<NodeJson>,
    pub edges: Vec<EdgeJson>,
}

impl View for NodeJson {
    type V = NodeJsonView;

    open spec fn view(&self) -> NodeJsonView {
        NodeJsonView {
            id: self.id as int,
            kind: self.kind@,
            label: self.label@,
            attrs: attrs_view(self.attrs@),
        }
    }
}

impl View for EdgeJson {
    type V = EdgeJsonView;

    open spec fn view(&self) -> EdgeJsonView {
        EdgeJsonView {
            id: self.id as int,
            kind: self.kind@,
            from: self.from as int,
            to: self.to as int,
            attrs: attrs_view(self.attrs@),
        }
    }
}

impl View for GraphJson {
    type V = GraphJsonView;

    open spec fn view(&self) -> GraphJsonView {
        GraphJsonView {
            nodes: self.nodes@.map_values(|n: NodeJson| n@),
            edges: self.edges@.map_values(|e: EdgeJson| e@),
        }
    }
}

/// What one node becomes in the JSON model.
pub open spec fn json_of_node(n: NodeView) -> NodeJsonView {
    NodeJsonView {
        id: n.id,
        kind: json_kind(n.kind),
        label: json_label(n.kind),
        attrs: json_attrs(n.attrs),
    }
}

/// What one edge becomes in the JSON model.
pub open spec fn json_of_edge(e: crate::graph::EdgeView) -> EdgeJsonView {
    EdgeJsonView {
        id: e.id,
        kind: edge_label(e.kind),
        from: e.from,
        to: e.to,
        attrs: json_attrs(e.attrs),
    }
}

/// What a whole graph becomes in the JSON model.
pub open spec fn json_of(g: crate::graph::GraphView) -> GraphJsonView {
    GraphJsonView {
        nodes: g.nodes.map_values(|n: NodeView| json_of_node(n)),
        edges: g.edges.map_values(|e: crate::graph::EdgeView| json_of_edge(e)),
    }
}

fn upsert_exec(items: &mut Vec<Attr>, a: Attr)
    ensures
        attrs_view(final(items)@) == upsert(attrs_view(old(items)@), a@),
    decreases old(items)@.len(),
{
    let n = items.len();
    let mut i: usize = 0;
    while i < n
        invariant
            i <= n,
            n == items@.len(),
            items@ == old(items)@,
            forall|k: int| 0 <= k < i ==> (#[trigger] items@[k]).key@ != a.key@,
        decreases n - i,
    {
        if items[i].key == a.key {
            items[i] = Attr { key: a.key, value: a.value };
            proof {
                lemma_upsert_hit(attrs_view(old(items)@), a@, i as int);
                assert(attrs_view(final(items)@) =~~= attrs_view(old(items)@).update(
                    i as int,
                    a@,
                ));
            }
            return ;
        }
        i += 1;
    }
    items.push(a);
    proof {
        lemma_upsert_miss(attrs_view(old(items)@), a@);
        assert(attrs_view(final(items)@) =~~= attrs_view(old(items)@).push(a@));
    }
}

/// When the key is already bound at position `i` (and nowhere earlier),
/// upserting is updating that binding in place.
proof fn lemma_upsert_hit(items: Seq<AttrView>, a: AttrView, i: int)
    requires
        0 <= i < items.len(),
        items[i].key == a.key,
        forall|k: int| 0 <= k < i ==> (#[trigger] items[k]).key != a.key,
    ensures
        upsert(items, a) == items.update(i, a),
    decreases items.len(),
{
    if i == 0 {
        assert(upsert(items, a) =~= items.update(0, a));
    } else {
        assert(items.drop_first()[i - 1] == items[i]);
        assert forall|k: int| 0 <= k < i - 1 implies (#[trigger] items.drop_first()[k]).key
            != a.key by {
            assert(items.drop_first()[k] == items[k + 1]);
        };
        lemma_upsert_hit(items.drop_first(), a, i - 1);
        assert(upsert(items, a) =~= items.update(i, a));
    }
}

/// When the key is not bound, upserting is appending.
proof fn lemma_upsert_miss(items: Seq<AttrView>, a: AttrView)
    requires
        forall|k: int| 0 <= k < items.len() ==> (#[trigger] items[k]).key != a.key,
    ensures
        upsert(items, a) == items.push(a),
    decreases items.len(),
{
    if items.len() == 0 {
        assert(upsert(items, a) =~= items.push(a));
    } else {
        assert forall|k: int| 0 <= k < items.drop_first().len() implies (
        #[trigger] items.drop_first()[k]).key != a.key by {
            assert(items.drop_first()[k] == items[k + 1]);
        };
        lemma_upsert_miss(items.drop_first(), a);
        assert(upsert(items, a) =~= items.push(a));
    }
}

/// Collapse an attribute list to one value per key — the last write wins —
/// and sort it by key.
fn attrs_map(attrs: &Vec<Attr>) -> (r: Vec<Attr>)
    ensures
        attrs_view(r@) == json_attrs(attrs_view(attrs@)),
{
    let mut collapsed: Vec<Attr> = Vec::new();
    let mut i: usize = 0;
    proof {
        assert(attrs_view(collapsed@) =~= collapse(attrs_view(attrs@.take(0))));
    }
    while i < attrs.len()
        invariant
            i <= attrs.len(),
            attrs_view(collapsed@) == collapse(attrs_view(attrs@.take(i as int))),
        decreases attrs.len() - i,
    {
        proof {
            assert(attrs@.take(i + 1).drop_last() =~= attrs@.take(i as int));
            assert(attrs@.take(i + 1).last() == attrs@[i as int]);
            assert(attrs_view(attrs@.take(i + 1)).drop_last() =~= attrs_view(
                attrs@.take(i as int),
            ));
            assert(attrs_view(attrs@.take(i + 1)).last() == attrs@[i as int]@);
        }
        let a = &attrs[i];
        upsert_exec(&mut collapsed, Attr { key: a.key.clone(), value: a.value.clone() });
        i += 1;
    }
    proof {
        assert(attrs@.take(attrs@.len() as int) =~= attrs@);
    }
    crate::dot::sort_attrs(&collapsed)
}

fn node_kind_and_label(node: &Node) -> (r: (String, String))
    ensures
        r.0@ == json_kind(node@.kind),
        r.1@ == json_label(node@.kind),
{
    match &node.kind {
        crate::graph::NodeKind::Program => (String::from_str("Program"), String::from_str(
            "Program",
        )),
        crate::graph::NodeKind::Forge { name } => (String::from_str("Forge"), name.clone()),
        crate::graph::NodeKind::Shape { name } => (String::from_str("Shape"), name.clone()),
        crate::graph::NodeKind::Proc { regime, name } => {
            let mut l = String::from_str("[");
            l.append(regime.as_str());
            l.append("] ");
            l.append(name.as_str());
            (String::from_str("Proc"), l)
        },
        crate::graph::NodeKind::Uses { resource } => (String::from_str("Uses"), resource.clone()),
        crate::graph::NodeKind::Bind { source, target } => {
            let mut l = source.clone();
            l.append(" -> ");
            l.append(target.as_str());
            (String::from_str("Bind"), l)
        },
        crate::graph::NodeKind::Clause { key, op, value } => {
            let mut l = key.clone();
            l.append(" ");
            l.append(op.as_str());
            l.append(" ");
            l.append(value.as_str());
            (String::from_str("Clause"), l)
        },
        crate::graph::NodeKind::Stmt { label } => (String::from_str("Stmt"), label.clone()),
        crate::graph::NodeKind::TraceEvent { label } => (String::from_str("TraceEvent"),
        label.clone()),
    }
}

fn edge_kind_label(kind: crate::graph::EdgeKind) -> (r: String)
    ensures
        r@ == edge_label(kind),
{
    match kind {
        crate::graph::EdgeKind::Contains => String::from_str("contains"),
        crate::graph::EdgeKind::Next => String::from_str("next"),
        crate::graph::EdgeKind::Uses => String::from_str("uses"),
        crate::graph::EdgeKind::Clause => String::from_str("clause"),
        crate::graph::EdgeKind::Trace => String::from_str("trace"),
    }
}

/// The JSON model of a graph, ready to serialize.
pub fn graph_to_json(graph: &Graph) -> (r: GraphJson)
    ensures
        r@ == json_of(graph@),
{
    let mut nodes: Vec<NodeJson> = Vec::new();
    let mut i: usize = 0;
    while i < graph.nodes.len()
        invariant
            i <= graph.nodes.len(),
            nodes@.map_values(|n: NodeJson| n@) == graph@.nodes.take(i as int).map_values(
                |n: NodeView| json_of_node(n),
            ),
        decreases graph.nodes.len() - i,
    {
        proof {
            assert(graph@.nodes[i as int] == graph.nodes@[i as int]@);
            assert(graph@.nodes.take(i + 1).drop_last() =~= graph@.nodes.take(i as int));
            assert(graph@.nodes.take(i + 1).last() == graph@.nodes[i as int]);
        }
        let node = &graph.nodes[i];
        let (kind, label) = node_kind_and_label(node);
        let attrs = attrs_map(&node.attrs);
        let ghost prev = nodes@;
        nodes.push(NodeJson { id: node.id, kind, label, attrs });
        proof {
            let lhs = nodes@.map_values(|n: NodeJson| n@);
            let rhs = graph@.nodes.take(i + 1).map_values(|n: NodeView| json_of_node(n));
            assert(prev.map_values(|n: NodeJson| n@).len() == prev.len());
            assert(graph@.nodes.take(i as int).map_values(|n: NodeView| json_of_node(n)).len()
                == i);
            assert(prev.len() == i);
            assert(nodes@ == prev.push(NodeJson { id: node.id, kind, label, attrs }));
            assert(lhs[i as int] =~~= rhs[i as int]);
            assert forall|k: int| 0 <= k < i implies lhs[k] == rhs[k] by {
                assert(nodes@[k] == prev[k]);
                assert(prev.map_values(|n: NodeJson| n@)[k] == graph@.nodes.take(
                    i as int,
                ).map_values(|n: NodeView| json_of_node(n))[k]);
                assert(graph@.nodes.take(i as int)[k] == graph@.nodes.take(i + 1)[k]);
            };
            assert(lhs =~~= rhs);
        }
        i += 1;
    }
    proof {
        assert(graph@.nodes.take(graph.nodes@.len() as int) =~= graph@.nodes);
    }

    let mut edges: Vec<EdgeJson> = Vec::new();
    let mut j: usize = 0;
    while j < graph.edges.len()
        invariant
            j <= graph.edges.len(),
            edges@.map_values(|e: EdgeJson| e@) == graph@.edges.take(j as int).map_values(
                |e: crate::graph::EdgeView| json_of_edge(e),
            ),
        decreases graph.edges.len() - j,
    {
        proof {
            assert(graph@.edges[j as int] == graph.edges@[j as int]@);
            assert(graph@.edges.take(j + 1).drop_last() =~= graph@.edges.take(j as int));
            assert(graph@.edges.take(j + 1).last() == graph@.edges[j as int]);
        }
        let edge = &graph.edges[j];
        let kind = edge_kind_label(edge.kind);
        let attrs = attrs_map(&edge.attrs);
        let ghost prev = edges@;
        edges.push(EdgeJson { id: edge.id, kind, from: edge.from, to: edge.to, attrs });
        proof {
            let lhs = edges@.map_values(|e: EdgeJson| e@);
            let rhs = graph@.edges.take(j + 1).map_values(
                |e: crate::graph::EdgeView| json_of_edge(e),
            );
            assert(prev.map_values(|e: EdgeJson| e@).len() == prev.len());
            assert(graph@.edges.take(j as int).map_values(
                |e: crate::graph::EdgeView| json_of_edge(e),
            ).len() == j);
            assert(prev.len() == j);
            assert(edges@ == prev.push(EdgeJson { id: edge.id, kind, from: edge.from, to: edge.to, attrs }));
            assert(lhs[j as int] =~~= rhs[j as int]);
            assert forall|k: int| 0 <= k < j implies lhs[k] == rhs[k] by {
                assert(edges@[k] == prev[k]);
                assert(prev.map_values(|e: EdgeJson| e@)[k] == graph@.edges.take(
                    j as int,
                ).map_values(|e: crate::graph::EdgeView| json_of_edge(e))[k]);
                assert(graph@.edges.take(j as int)[k] == graph@.edges.take(j + 1)[k]);
            };
            assert(lhs =~~= rhs);
        }
        j += 1;
    }
    proof {
        assert(graph@.edges.take(graph.edges@.len() as int) =~= graph@.edges);
    }

    let r = GraphJson { nodes, edges };
    proof {
        assert(r@ =~~= json_of(graph@));
    }
    r
}

} // verus!
