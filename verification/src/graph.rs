//! The shared node/edge container with stable insertion-order identity and an
//! ordered attribute side-table on every node and edge.
//!
//! Node and edge ids are dense and 0-based: a node's id is its position in the
//! node sequence, and likewise for edges.  Both sequences only ever grow;
//! attributes may be appended to an existing node or edge, but a node's kind
//! and an edge's endpoints are never changed once created.

use vstd::prelude::*;

verus! {

pub type NodeId = usize;

pub type EdgeId = usize;

/// The closed set of edge roles.
#[derive(Debug, Clone, Copy, PartialEq, Eq, Structural)]
pub enum EdgeKind {
    Contains,
    Next,
    Uses,
    Clause,
    Trace,
}

/// The closed set of node kinds; all strings are opaque display labels.
#[derive(Debug, Clone, PartialEq, Eq)]
pub enum NodeKind {
    Program,
    Forge { name: String },
    Shape { name: String },
    Proc { regime: String, name: String },
    Uses { resource: String },
    Bind { source: String, target: String },
    Clause { key: String, op: String, value: String },
    Stmt { label: String },
    TraceEvent { label: String },
}

/// One key/value attribute; a node or edge carries an ordered list of these,
/// and repeated keys are permitted.
#[derive(Debug, Clone, PartialEq, Eq)]
pub struct Attr {
    pub key: String,
    pub value: String,
}

#[derive(Debug, Clone, PartialEq, Eq)]
pub struct Node {
    pub id: NodeId,
    pub kind: NodeKind,
    pub attrs: Vec<Attr>,
}

#[derive(Debug, Clone, PartialEq, Eq)]
pub struct Edge {
    pub id: EdgeId,
    pub kind: EdgeKind,
    pub from: NodeId,
    pub to: NodeId,
    pub attrs: Vec<Attr>,
}

#[derive(Debug, Clone)]
pub struct Graph {
    pub nodes: Vec<Node>,
    pub edges: Vec<Edge>,
}

/// Mathematical model of a node kind: the same variants over character
/// sequences.
#[verifier::ext_equal]
pub ghost enum NodeKindView {
    Program,
    Forge { name: Seq<char> },
    Shape { name: Seq<char> },
    Proc { regime: Seq<char>, name: Seq<char> },
    Uses { resource: Seq<char> },
    Bind { source: Seq<char>, target: Seq<char> },
    Clause { key: Seq<char>, op: Seq<char>, value: Seq<char> },
    Stmt { label: Seq<char> },
    TraceEvent { label: Seq<char> },
}

#[verifier::ext_equal]
pub ghost struct AttrView {
    pub key: Seq<char>,
    pub value: Seq<char>,
}

#[verifier::ext_equal]
pub ghost struct NodeView {
    pub id: int,
    pub kind: NodeKindView,
    pub attrs: Seq<AttrView>,
}

#[verifier::ext_equal]
pub ghost struct EdgeView {
    pub id: int,
    pub kind: EdgeKind,
    pub from: int,
    pub to: int,
    pub attrs: Seq<AttrView>,
}

#[verifier::ext_equal]
pub ghost struct GraphView {
    pub nodes: Seq<NodeView>,
    pub edges: Seq<EdgeView>,
}

impl View for NodeKind {
    type V = NodeKindView;

    open spec fn view(&self) -> NodeKindView {
        match self {
            NodeKind::Program => NodeKindView::Program,
            NodeKind::Forge { name } => NodeKindView::Forge { name: name@ },
            NodeKind::Shape { name } => NodeKindView::Shape { name: name@ },
            NodeKind::Proc { regime, name } => NodeKindView::Proc {
                regime: regime@,
                name: name@,
            },
            NodeKind::Uses { resource } => NodeKindView::Uses { resource: resource@ },
            NodeKind::Bind { source, target } => NodeKindView::Bind {
                source: source@,
                target: target@,
            },
            NodeKind::Clause { key, op, value } => NodeKindView::Clause {
                key: key@,
                op: op@,
                value: value@,
            },
            NodeKind::Stmt { label } => NodeKindView::Stmt { label: label@ },
            NodeKind::TraceEvent { label } => NodeKindView::TraceEvent { label: label@ },
        }
    }
}

impl View for Attr {
    type V = AttrView;

    open spec fn view(&self) -> AttrView {
        AttrView { key: self.key@, value: self.value@ }
    }
}

/// The model of an attribute list.
pub open spec fn attrs_view(attrs: Seq<Attr>) -> Seq<AttrView> {
    attrs.map_values(|a: Attr| a@)
}

impl View for Node {
    type V = NodeView;

    open spec fn view(&self) -> NodeView {
        NodeView { id: self.id as int, kind: self.kind@, attrs: attrs_view(self.attrs@) }
    }
}

impl View for Edge {
    type V = EdgeView;

    open spec fn view(&self) -> EdgeView {
        EdgeView {
            id: self.id as int,
            kind: self.kind,
            from: self.from as int,
            to: self.to as int,
            attrs: attrs_view(self.attrs@),
        }
    }
}

impl View for Graph {
    type V = GraphView;

    open spec fn view(&self) -> GraphView {
        GraphView {
            nodes: self.nodes@.map_values(|n: Node| n@),
            edges: self.edges@.map_values(|e: Edge| e@),
        }
    }
}

impl GraphView {
    pub open spec fn empty() -> GraphView {
        GraphView { nodes: Seq::empty(), edges: Seq::empty() }
    }

    /// The id the next node will receive.
    pub open spec fn next_node_id(self) -> int {
        self.nodes.len() as int
    }

    /// The id the next edge will receive.
    pub open spec fn next_edge_id(self) -> int {
        self.edges.len() as int
    }

    /// Appending one node, whose id is its insertion index.
    pub open spec fn push_node(self, kind: NodeKindView, attrs: Seq<AttrView>) -> GraphView {
        GraphView {
            nodes: self.nodes.push(NodeView { id: self.nodes.len() as int, kind, attrs }),
            edges: self.edges,
        }
    }

    /// Appending one edge, whose id is its insertion index.
    pub open spec fn push_edge(self, kind: EdgeKind, from: int, to: int) -> GraphView {
        GraphView {
            nodes: self.nodes,
            edges: self.edges.push(
                EdgeView {
                    id: self.edges.len() as int,
                    kind,
                    from,
                    to,
                    attrs: Seq::empty(),
                },
            ),
        }
    }

    /// Appending one attribute to the node with the given id.
    pub open spec fn push_node_attr(self, id: int, a: AttrView) -> GraphView {
        let n = self.nodes[id];
        GraphView {
            nodes: self.nodes.update(
                id,
                NodeView { id: n.id, kind: n.kind, attrs: n.attrs.push(a) },
            ),
            edges: self.edges,
        }
    }

    /// Appending one attribute to the edge with the given id.
    pub open spec fn push_edge_attr(self, id: int, a: AttrView) -> GraphView {
        let e = self.edges[id];
        GraphView {
            nodes: self.nodes,
            edges: self.edges.update(
                id,
                EdgeView { id: e.id, kind: e.kind, from: e.from, to: e.to, attrs: e.attrs.push(a) },
            ),
        }
    }

    /// Well-formedness: ids are dense insertion indices and every edge points
    /// at nodes that exist.
    pub open spec fn wf(self) -> bool {
        &&& forall|i: int|
            0 <= i < self.nodes.len() ==> (#[trigger] self.nodes[i]).id == i
        &&& forall|j: int|
            0 <= j < self.edges.len() ==> {
                let e = #[trigger] self.edges[j];
                &&& e.id == j
                &&& 0 <= e.from < self.nodes.len()
                &&& 0 <= e.to < self.nodes.len()
            }
    }

    /// `other` extends `self`: everything present in `self` is still present,
    /// unchanged, at the same id.
    pub open spec fn extends(self, other: GraphView) -> bool {
        &&& other.nodes.len() >= self.nodes.len()
        &&& other.edges.len() >= self.edges.len()
        &&& forall|i: int|
            0 <= i < self.nodes.len() ==> #[trigger] other.nodes[i] == self.nodes[i]
        &&& forall|j: int|
            0 <= j < self.edges.len() ==> #[trigger] other.edges[j] == self.edges[j]
    }
}

/// A set of node ids, as produced by the trace overlay and consumed by the
/// focus pass.
#[derive(Debug, Clone)]
pub struct NodeIdSet {
    pub items: Vec<NodeId>,
}

impl View for NodeIdSet {
    type V = Set<int>;

    open spec fn view(&self) -> Set<int> {
        self.items@.map_values(|x: NodeId| x as int).to_set()
    }
}

impl NodeIdSet {
    /// No id is held twice.
    pub open spec fn inv(self) -> bool {
        self.items@.no_duplicates()
    }

    pub fn new() -> (s: NodeIdSet)
        ensures
            s@ == Set::<int>::empty(),
            s.inv(),
    {
        let s = NodeIdSet { items: Vec::new() };
        proof {
            assert(s.items@.map_values(|x: NodeId| x as int) =~= Seq::<int>::empty());
            assert(s@ =~= Set::<int>::empty());
        }
        s
    }

    pub fn contains(&self, id: NodeId) -> (r: bool)
        ensures
            r == self@.contains(id as int),
    {
        let ghost m = self.items@.map_values(|x: NodeId| x as int);
        let mut i: usize = 0;
        while i < self.items.len()
            invariant
                i <= self.items.len(),
                m == self.items@.map_values(|x: NodeId| x as int),
                forall|k: int| 0 <= k < i ==> m[k] != id as int,
            decreases self.items.len() - i,
        {
            if self.items[i] == id {
                proof {
                    assert(m[i as int] == id as int);
                    assert(m.contains(id as int));
                }
                return true;
            }
            i += 1;
        }
        proof {
            assert(!m.contains(id as int));
        }
        false
    }

    /// Add an id; adding one already held changes nothing.
    pub fn insert(&mut self, id: NodeId)
        requires
            old(self).inv(),
        ensures
            final(self)@ == old(self)@.insert(id as int),
            final(self).inv(),
    {
        let ghost m = self.items@.map_values(|x: NodeId| x as int);
        if !self.contains(id) {
            proof {
                assert(!m.contains(id as int));
                assert(forall|k: int|
                    0 <= k < self.items@.len() ==> self.items@[k] as int == #[trigger] m[k]);
            }
            self.items.push(id);
            proof {
                let m2 = final(self).items@.map_values(|x: NodeId| x as int);
                assert(m2 =~= m.push(id as int));
                Seq::<int>::lemma_push_to_set_commute(m, id as int);
                broadcast use vstd::set::group_set_axioms;

                assert(final(self)@ == old(self)@.insert(id as int));
                assert forall|k: int|
                    0 <= k < old(self).items@.len() implies old(self).items@[k] != id by {
                    assert(m[k] == old(self).items@[k] as int);
                };
                assert(final(self).items@.no_duplicates());
            }
        } else {
            proof {
                assert(final(self)@ =~= old(self)@.insert(id as int));
            }
        }
    }

    /// How many ids are held.
    pub fn len(&self) -> (n: usize)
        requires
            self.inv(),
        ensures
            self@.finite(),
            n == self@.len(),
    {
        proof {
            let m = self.items@.map_values(|x: NodeId| x as int);
            assert(m.no_duplicates()) by {
                assert(forall|k: int|
                    0 <= k < self.items@.len() ==> self.items@[k] as int == #[trigger] m[k]);
            };
            m.unique_seq_to_set();
            vstd::seq_lib::seq_to_set_is_finite(m);
        }
        self.items.len()
    }
}

pub proof fn lemma_extends_refl(g: GraphView)
    ensures
        g.extends(g),
{
}

pub proof fn lemma_extends_trans(a: GraphView, b: GraphView, c: GraphView)
    requires
        a.extends(b),
        b.extends(c),
    ensures
        a.extends(c),
{
}

pub proof fn lemma_push_node_extends(g: GraphView, kind: NodeKindView, attrs: Seq<AttrView>)
    ensures
        g.extends(g.push_node(kind, attrs)),
{
}

pub proof fn lemma_push_edge_extends(g: GraphView, kind: EdgeKind, from: int, to: int)
    ensures
        g.extends(g.push_edge(kind, from, to)),
{
}

/// Attaching an attribute to a node beyond a base prefix leaves that prefix
/// intact.
pub proof fn lemma_push_node_attr_extends_beyond(
    base: GraphView,
    g: GraphView,
    id: int,
    a: AttrView,
)
    requires
        base.extends(g),
        base.nodes.len() <= id < g.nodes.len(),
    ensures
        base.extends(g.push_node_attr(id, a)),
{
    let g2 = g.push_node_attr(id, a);
    assert forall|i: int| 0 <= i < base.nodes.len() implies #[trigger] g2.nodes[i]
        == base.nodes[i] by {
        assert(g2.nodes[i] == g.nodes[i]);
    };
}

/// Attaching an attribute to an edge beyond a base prefix leaves that prefix
/// intact.
pub proof fn lemma_push_edge_attr_extends_beyond(
    base: GraphView,
    g: GraphView,
    id: int,
    a: AttrView,
)
    requires
        base.extends(g),
        base.edges.len() <= id < g.edges.len(),
    ensures
        base.extends(g.push_edge_attr(id, a)),
{
    let g2 = g.push_edge_attr(id, a);
    assert forall|j: int| 0 <= j < base.edges.len() implies #[trigger] g2.edges[j]
        == base.edges[j] by {
        assert(g2.edges[j] == g.edges[j]);
    };
}

/// Appending a node keeps well-formedness.
pub proof fn lemma_push_node_wf(g: GraphView, kind: NodeKindView, attrs: Seq<AttrView>)
    requires
        g.wf(),
    ensures
        g.push_node(kind, attrs).wf(),
{
    let g2 = g.push_node(kind, attrs);
    assert forall|i: int| 0 <= i < g2.nodes.len() implies (#[trigger] g2.nodes[i]).id == i by {
        if i < g.nodes.len() {
            assert(g2.nodes[i] == g.nodes[i]);
        }
    };
}

/// Appending an edge with endpoints in bounds keeps well-formedness.
pub proof fn lemma_push_edge_wf(g: GraphView, kind: EdgeKind, from: int, to: int)
    requires
        g.wf(),
        0 <= from < g.nodes.len(),
        0 <= to < g.nodes.len(),
    ensures
        g.push_edge(kind, from, to).wf(),
{
    let g2 = g.push_edge(kind, from, to);
    assert forall|j: int| 0 <= j < g2.edges.len() implies {
        let e = #[trigger] g2.edges[j];
        e.id == j && 0 <= e.from < g2.nodes.len() && 0 <= e.to < g2.nodes.len()
    } by {
        if j < g.edges.len() {
            assert(g2.edges[j] == g.edges[j]);
        }
    };
}

/// Appending a node attribute keeps well-formedness.
pub proof fn lemma_push_node_attr_wf(g: GraphView, id: int, a: AttrView)
    requires
        g.wf(),
        0 <= id < g.nodes.len(),
    ensures
        g.push_node_attr(id, a).wf(),
{
    let g2 = g.push_node_attr(id, a);
    assert forall|i: int| 0 <= i < g.nodes.len() implies (#[trigger] g2.nodes[i]).id
        == g.nodes[i].id by {
        if i != id {
            assert(g2.nodes[i] == g.nodes[i]);
        }
    };
}

/// Appending an edge attribute keeps well-formedness.
pub proof fn lemma_push_edge_attr_wf(g: GraphView, id: int, a: AttrView)
    requires
        g.wf(),
        0 <= id < g.edges.len(),
    ensures
        g.push_edge_attr(id, a).wf(),
{
    let g2 = g.push_edge_attr(id, a);
    assert forall|j: int| 0 <= j < g.edges.len() implies {
        let e = #[trigger] g2.edges[j];
        e.id == g.edges[j].id && e.from == g.edges[j].from && e.to == g.edges[j].to
    } by {
        if j != id {
            assert(g2.edges[j] == g.edges[j]);
        }
    };
}

impl Graph {
    /// A fresh, empty graph.
    pub fn new() -> (g: Graph)
        ensures
            g@ == GraphView::empty(),
            g@.wf(),
    {
        let g = Graph { nodes: Vec::new(), edges: Vec::new() };
        proof {
            assert(g@ =~= GraphView::empty());
        }
        g
    }

    /// Append a node with initial attributes; its id is its insertion index.
    pub fn add_node_with_attrs(&mut self, kind: NodeKind, attrs: Vec<Attr>) -> (id: NodeId)
        ensures
            final(self)@ == old(self)@.push_node(kind@, attrs_view(attrs@)),
            id == old(self)@.next_node_id(),
            final(self)@.nodes.len() == old(self)@.nodes.len() + 1,
            old(self)@.wf() ==> final(self)@.wf(),
    {
        let id = self.nodes.len();
        let ghost pre = self@;
        let ghost a = attrs_view(attrs@);
        let ghost k = kind@;
        self.nodes.push(Node { id, kind, attrs });
        proof {
            assert(final(self)@ =~= pre.push_node(k, a));
            if pre.wf() {
                lemma_push_node_wf(pre, k, a);
            }
        }
        id
    }

    /// Append a node with no attributes.
    pub fn add_node(&mut self, kind: NodeKind) -> (id: NodeId)
        ensures
            final(self)@ == old(self)@.push_node(kind@, Seq::empty()),
            id == old(self)@.next_node_id(),
            final(self)@.nodes.len() == old(self)@.nodes.len() + 1,
            old(self)@.wf() ==> final(self)@.wf(),
    {
        let id = self.add_node_with_attrs(kind, Vec::new());
        proof {
            assert(attrs_view(Seq::<Attr>::empty()) =~= Seq::<AttrView>::empty());
        }
        id
    }

    /// Append an edge; the caller guarantees both endpoints exist.
    pub fn add_edge(&mut self, kind: EdgeKind, from: NodeId, to: NodeId) -> (id: EdgeId)
        requires
            from < old(self)@.nodes.len(),
            to < old(self)@.nodes.len(),
        ensures
            final(self)@ == old(self)@.push_edge(kind, from as int, to as int),
            id == old(self)@.next_edge_id(),
            final(self)@.edges.len() == old(self)@.edges.len() + 1,
            old(self)@.wf() ==> final(self)@.wf(),
    {
        let id = self.edges.len();
        let ghost pre = self@;
        self.edges.push(Edge { id, kind, from, to, attrs: Vec::new() });
        proof {
            assert(attrs_view(Seq::<Attr>::empty()) =~= Seq::<AttrView>::empty());
            assert(final(self)@ =~= pre.push_edge(kind, from as int, to as int));
            if pre.wf() {
                lemma_push_edge_wf(pre, kind, from as int, to as int);
            }
        }
        id
    }

    /// Append one key/value pair to an existing node's attribute list.
    pub fn add_node_attr(&mut self, id: NodeId, key: String, value: String)
        requires
            id < old(self)@.nodes.len(),
        ensures
            final(self)@ == old(self)@.push_node_attr(id as int, AttrView { key: key@, value: value@ }),
            final(self)@.nodes.len() == old(self)@.nodes.len(),
            final(self)@.edges == old(self)@.edges,
            old(self)@.wf() ==> final(self)@.wf(),
    {
        let ghost pre = self@;
        let ghost a = AttrView { key: key@, value: value@ };
        self.nodes[id].attrs.push(Attr { key, value });
        proof {
            assert(final(self)@ =~~= pre.push_node_attr(id as int, a));
            if pre.wf() {
                lemma_push_node_attr_wf(pre, id as int, a);
            }
        }
    }

    /// Append one key/value pair to an existing edge's attribute list.
    pub fn add_edge_attr(&mut self, id: EdgeId, key: String, value: String)
        requires
            id < old(self)@.edges.len(),
        ensures
            final(self)@ == old(self)@.push_edge_attr(id as int, AttrView { key: key@, value: value@ }),
            final(self)@.edges.len() == old(self)@.edges.len(),
            final(self)@.nodes == old(self)@.nodes,
            old(self)@.wf() ==> final(self)@.wf(),
    {
        let ghost pre = self@;
        let ghost a = AttrView { key: key@, value: value@ };
        self.edges[id].attrs.push(Attr { key, value });
        proof {
            assert(final(self)@ =~~= pre.push_edge_attr(id as int, a));
            if pre.wf() {
                lemma_push_edge_attr_wf(pre, id as int, a);
            }
        }
    }
}

} // verus!
