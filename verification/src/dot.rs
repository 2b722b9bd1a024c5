//! Graphviz DOT text for a graph: deterministic output, one line per node
//! and per edge, labels escaped for DOT safety.  The annotated mode also
//! surfaces each node's and edge's attributes as a `tooltip`, sorted by key
//! then value; visible labels are the same in both modes.

use vstd::prelude::*;

use crate::graph::{Attr, AttrView, EdgeKind, EdgeView, Graph, Node, NodeKindView, NodeView};
use crate::strutil::{dec_str, usize_to_string};
use vstd::string::StringExecFns;
use vstd::string::StrSliceExecFns;

verus! {

/// DOT escaping of one character: backslash, quote and newline are escaped,
/// carriage returns are dropped, everything else passes through.
pub open spec fn esc_char(c: char) -> Seq<char> {
    if c == '\\' {
        "\\\\"@
    } else if c == '"' {
        "\\\""@
    } else if c == '\n' {
        "\\n"@
    } else if c == '\r' {
        Seq::empty()
    } else {
        seq![c]
    }
}

pub open spec fn esc(s: Seq<char>) -> Seq<char>
    decreases s.len(),
{
    if s.len() == 0 {
        Seq::empty()
    } else {
        esc(s.drop_last()) + esc_char(s.last())
    }
}

/// The visible label of a node.
pub open spec fn node_label(k: NodeKindView) -> Seq<char> {
    match k {
        NodeKindView::Program => "Program"@,
        NodeKindView::Forge { name } => "Forge\n"@ + name,
        NodeKindView::Shape { name } => "Shape\n"@ + name,
        NodeKindView::Proc { regime, name } => "Proc ["@ + regime + "]\n"@ + name,
        NodeKindView::Uses { resource } => "Uses\n"@ + resource,
        NodeKindView::Bind { source, target } => "Bind\n"@ + source + " \u{2192} "@ + target,
        NodeKindView::Clause { key, op, value } => "Clause\n"@ + key + " "@ + op + " "@ + value,
        NodeKindView::Stmt { label } => "Stmt\n"@ + label,
        NodeKindView::TraceEvent { label } => label,
    }
}

/// The Graphviz shape of a node.
pub open spec fn node_shape(k: NodeKindView) -> Seq<char> {
    match k {
        NodeKindView::Program => "oval"@,
        NodeKindView::Forge { name } => "folder"@,
        NodeKindView::Shape { name } => "box3d"@,
        NodeKindView::Proc { regime, name } => "component"@,
        NodeKindView::Uses { resource } => "note"@,
        NodeKindView::Bind { source, target } => "diamond"@,
        NodeKindView::Clause { key, op, value } => "parallelogram"@,
        NodeKindView::Stmt { label } => "box"@,
        NodeKindView::TraceEvent { label } => "cds"@,
    }
}

/// The visible label of an edge.
pub open spec fn edge_label(k: EdgeKind) -> Seq<char> {
    match k {
        EdgeKind::Contains => "contains"@,
        EdgeKind::Next => "next"@,
        EdgeKind::Uses => "uses"@,
        EdgeKind::Clause => "clause"@,
        EdgeKind::Trace => "trace"@,
    }
}

/// Lexicographic order on character sequences, by code point.
pub open spec fn lex_le(a: Seq<char>, b: Seq<char>) -> bool
    decreases a.len(),
{
    if a.len() == 0 {
        true
    } else if b.len() == 0 {
        false
    } else if a.first() == b.first() {
        lex_le(a.drop_first(), b.drop_first())
    } else {
        (a.first() as u32) < (b.first() as u32)
    }
}

/// Attribute order: by key, then by value.
pub open spec fn attr_le(x: AttrView, y: AttrView) -> bool {
    if x.key == y.key {
        lex_le(x.value, y.value)
    } else {
        lex_le(x.key, y.key)
    }
}

/// Stable insertion into a sorted run: an equal element goes after the ones
/// already there.
pub open spec fn insert_attr(sorted: Seq<AttrView>, a: AttrView) -> Seq<AttrView>
    decreases sorted.len(),
{
    if sorted.len() == 0 {
        seq![a]
    } else if attr_le(sorted.last(), a) {
        sorted.push(a)
    } else {
        insert_attr(sorted.drop_last(), a).push(sorted.last())
    }
}

/// Stable insertion sort of an attribute list, by key then value.
pub open spec fn attrs_sorted(attrs: Seq<AttrView>) -> Seq<AttrView>
    decreases attrs.len(),
{
    if attrs.len() == 0 {
        Seq::empty()
    } else {
        insert_attr(attrs_sorted(attrs.drop_last()), attrs.last())
    }
}

/// The tooltip text: `key=value` lines joined by newlines.
pub open spec fn tooltip_text(items: Seq<AttrView>) -> Seq<char>
    decreases items.len(),
{
    if items.len() == 0 {
        Seq::empty()
    } else if items.len() == 1 {
        items[0].key + "="@ + items[0].value
    } else {
        tooltip_text(items.drop_last()) + "\n"@ + items.last().key + "="@ + items.last().value
    }
}

/// One node line of the DOT output.
pub open spec fn dot_node_line(n: NodeView, annotated: bool) -> Seq<char> {
    let plain = "  n"@ + dec_str(n.id) + " [label=\""@ + esc(node_label(n.kind)) + "\", shape="@
        + node_shape(n.kind);
    if annotated && n.attrs.len() > 0 {
        plain + ", tooltip=\""@ + esc(tooltip_text(attrs_sorted(n.attrs))) + "\"];\n"@
    } else {
        plain + "];\n"@
    }
}

pub open spec fn dot_nodes(nodes: Seq<NodeView>, annotated: bool) -> Seq<char>
    decreases nodes.len(),
{
    if nodes.len() == 0 {
        Seq::empty()
    } else {
        dot_nodes(nodes.drop_last(), annotated) + dot_node_line(nodes.last(), annotated)
    }
}

/// One edge line of the DOT output.
pub open spec fn dot_edge_line(e: EdgeView, annotated: bool) -> Seq<char> {
    let plain = "  n"@ + dec_str(e.from) + " -> n"@ + dec_str(e.to) + " [label=\""@ + esc(
        edge_label(e.kind),
    ) + "\""@;
    if annotated && e.attrs.len() > 0 {
        plain + ", tooltip=\""@ + esc(tooltip_text(attrs_sorted(e.attrs))) + "\"];\n"@
    } else {
        plain + "];\n"@
    }
}

pub open spec fn dot_edges(edges: Seq<EdgeView>, annotated: bool) -> Seq<char>
    decreases edges.len(),
{
    if edges.len() == 0 {
        Seq::empty()
    } else {
        dot_edges(edges.drop_last(), annotated) + dot_edge_line(edges.last(), annotated)
    }
}

pub open spec fn dot_header() -> Seq<char> {
    "digraph dustviz {\n"@ + "  rankdir=LR;\n"@ + "  node [shape=box, fontname=\"monospace\"];\n"@
        + "  edge [fontname=\"monospace\"];\n"@ + "\n"@
}

/// The whole DOT document of a graph.
pub open spec fn dot_output(g: crate::graph::GraphView, annotated: bool) -> Seq<char> {
    dot_header() + dot_nodes(g.nodes, annotated) + "\n"@ + dot_edges(g.edges, annotated) + "}\n"@
}

/// Escape a string for DOT safety.
fn dot_escape(s: &str) -> (r: String)
    ensures
        r@ == esc(s@),
{
    let len = s.unicode_len();
    let mut out = String::new();
    let mut i: usize = 0;
    while i < len
        invariant
            i <= len,
            len == s@.len(),
            out@ == esc(s@.take(i as int)),
        decreases len - i,
    {
        let c = s.get_char(i);
        proof {
            assert(s@.take(i + 1).drop_last() =~= s@.take(i as int));
            assert(s@.take(i + 1).last() == s@[i as int]);
        }
        if c == '\\' {
            out.append("\\\\");
        } else if c == '"' {
            out.append("\\\"");
        } else if c == '\n' {
            out.append("\\n");
        } else if c == '\r' {
        } else {
            out.push(c);
            proof {
                assert(esc_char(c) =~= seq![c]);
                assert(out@ =~= esc(s@.take(i + 1)));
            }
        }
        i += 1;
    }
    proof {
        assert(s@.take(len as int) =~= s@);
    }
    out
}

fn lex_le_exec(a: &str, b: &str) -> (r: bool)
    ensures
        r == lex_le(a@, b@),
{
    let alen = a.unicode_len();
    let blen = b.unicode_len();
    let mut i: usize = 0;
    proof {
        assert(a@.skip(0) =~= a@);
        assert(b@.skip(0) =~= b@);
    }
    loop
        invariant
            i <= alen,
            i <= blen,
            alen == a@.len(),
            blen == b@.len(),
            lex_le(a@, b@) == lex_le(a@.skip(i as int), b@.skip(i as int)),
        decreases alen - i,
    {
        if i >= alen {
            proof {
                assert(a@.skip(i as int).len() == 0);
            }
            return true;
        }
        if i >= blen {
            proof {
                assert(b@.skip(i as int).len() == 0);
            }
            return false;
        }
        let ca = a.get_char(i);
        let cb = b.get_char(i);
        proof {
            assert(a@.skip(i as int).first() == a@[i as int]);
            assert(b@.skip(i as int).first() == b@[i as int]);
            assert(a@.skip(i as int).drop_first() =~= a@.skip(i + 1));
            assert(b@.skip(i as int).drop_first() =~= b@.skip(i + 1));
        }
        if ca != cb {
            return (ca as u32) < (cb as u32);
        }
        i += 1;
    }
}

fn attr_le_exec(x: &Attr, y: &Attr) -> (r: bool)
    ensures
        r == attr_le(x@, y@),
{
    if x.key == y.key {
        lex_le_exec(x.value.as_str(), y.value.as_str())
    } else {
        lex_le_exec(x.key.as_str(), y.key.as_str())
    }
}

fn insert_attr_exec(sorted: &mut Vec<Attr>, a: Attr)
    ensures
        crate::graph::attrs_view(final(sorted)@) == insert_attr(
            crate::graph::attrs_view(old(sorted)@),
            a@,
        ),
    decreases old(sorted)@.len(),
{
    let n = sorted.len();
    if n == 0 {
        sorted.push(a);
        proof {
            assert(crate::graph::attrs_view(final(sorted)@) =~= insert_attr(
                crate::graph::attrs_view(old(sorted)@),
                a@,
            ));
        }
    } else {
        proof {
            assert(crate::graph::attrs_view(sorted@).last() == sorted@[n - 1]@);
        }
        let keep = attr_le_exec(&sorted[n - 1], &a);
        if keep {
            sorted.push(a);
            proof {
                assert(crate::graph::attrs_view(final(sorted)@) =~= crate::graph::attrs_view(
                    old(sorted)@,
                ).push(a@));
            }
        } else {
            let last = match sorted.pop() {
                Some(x) => x,
                None => Attr { key: String::new(), value: String::new() },
            };
            proof {
                assert(crate::graph::attrs_view(sorted@) =~= crate::graph::attrs_view(
                    old(sorted)@,
                ).drop_last());
            }
            insert_attr_exec(sorted, a);
            sorted.push(last);
            proof {
                assert(crate::graph::attrs_view(final(sorted)@) =~= insert_attr(
                    crate::graph::attrs_view(old(sorted)@),
                    a@,
                ));
            }
        }
    }
}

pub(crate) fn sort_attrs(attrs: &Vec<Attr>) -> (r: Vec<Attr>)
    ensures
        crate::graph::attrs_view(r@) == attrs_sorted(crate::graph::attrs_view(attrs@)),
{
    let mut r: Vec<Attr> = Vec::new();
    let mut i: usize = 0;
    proof {
        assert(crate::graph::attrs_view(r@) =~= attrs_sorted(
            crate::graph::attrs_view(attrs@.take(0)),
        ));
    }
    while i < attrs.len()
        invariant
            i <= attrs.len(),
            crate::graph::attrs_view(r@) == attrs_sorted(
                crate::graph::attrs_view(attrs@.take(i as int)),
            ),
        decreases attrs.len() - i,
    {
        proof {
            assert(attrs@.take(i + 1).drop_last() =~= attrs@.take(i as int));
            assert(attrs@.take(i + 1).last() == attrs@[i as int]);
            assert(crate::graph::attrs_view(attrs@.take(i + 1)).drop_last() =~= crate::graph::attrs_view(
                attrs@.take(i as int),
            ));
            assert(crate::graph::attrs_view(attrs@.take(i + 1)).last() == attrs@[i as int]@);
        }
        let a = &attrs[i];
        insert_attr_exec(&mut r, Attr { key: a.key.clone(), value: a.value.clone() });
        proof {
            assert(crate::graph::attrs_view(r@) == attrs_sorted(
                crate::graph::attrs_view(attrs@.take(i + 1)),
            ));
        }
        i += 1;
    }
    proof {
        assert(attrs@.take(attrs@.len() as int) =~= attrs@);
    }
    r
}

fn attrs_tooltip(attrs: &Vec<Attr>) -> (r: String)
    ensures
        r@ == tooltip_text(attrs_sorted(crate::graph::attrs_view(attrs@))),
{
    let items = sort_attrs(attrs);
    let ghost itemsv = crate::graph::attrs_view(items@);
    let mut out = String::new();
    let mut i: usize = 0;
    while i < items.len()
        invariant
            i <= items.len(),
            itemsv == crate::graph::attrs_view(items@),
            itemsv.len() == items@.len(),
            out@ == tooltip_text(itemsv.take(i as int)),
        decreases items.len() - i,
    {
        proof {
            assert(itemsv.take(i + 1).drop_last() =~= itemsv.take(i as int));
            assert(itemsv.take(i + 1).last() == itemsv[i as int]);
            assert(itemsv[i as int] == items@[i as int]@);
        }
        if i > 0 {
            out.append("\n");
        }
        out.append(items[i].key.as_str());
        out.append("=");
        out.append(items[i].value.as_str());
        proof {
            if i == 0 {
                assert(itemsv.take(1).len() == 1);
                assert(itemsv.take(1)[0] == itemsv[0]);
                assert(out@ =~= tooltip_text(itemsv.take(1)));
            }
        }
        i += 1;
    }
    proof {
        assert(itemsv.take(itemsv.len() as int) =~= itemsv);
    }
    out
}

fn node_label_exec(node: &Node) -> (r: String)
    ensures
        r@ == node_label(node@.kind),
{
    match &node.kind {
        crate::graph::NodeKind::Program => String::from_str("Program"),
        crate::graph::NodeKind::Forge { name } => {
            let mut l = String::from_str("Forge\n");
            l.append(name.as_str());
            l
        },
        crate::graph::NodeKind::Shape { name } => {
            let mut l = String::from_str("Shape\n");
            l.append(name.as_str());
            l
        },
        crate::graph::NodeKind::Proc { regime, name } => {
            let mut l = String::from_str("Proc [");
            l.append(regime.as_str());
            l.append("]\n");
            l.append(name.as_str());
            l
        },
        crate::graph::NodeKind::Uses { resource } => {
            let mut l = String::from_str("Uses\n");
            l.append(resource.as_str());
            l
        },
        crate::graph::NodeKind::Bind { source, target } => {
            let mut l = String::from_str("Bind\n");
            l.append(source.as_str());
            l.append(" \u{2192} ");
            l.append(target.as_str());
            l
        },
        crate::graph::NodeKind::Clause { key, op, value } => {
            let mut l = String::from_str("Clause\n");
            l.append(key.as_str());
            l.append(" ");
            l.append(op.as_str());
            l.append(" ");
            l.append(value.as_str());
            l
        },
        crate::graph::NodeKind::Stmt { label } => {
            let mut l = String::from_str("Stmt\n");
            l.append(label.as_str());
            l
        },
        crate::graph::NodeKind::TraceEvent { label } => label.clone(),
    }
}

fn node_shape_exec(node: &Node) -> (r: &'static str)
    ensures
        r@ == node_shape(node@.kind),
{
    match &node.kind {
        crate::graph::NodeKind::Program => "oval",
        crate::graph::NodeKind::Forge { name } => "folder",
        crate::graph::NodeKind::Shape { name } => "box3d",
        crate::graph::NodeKind::Proc { regime, name } => "component",
        crate::graph::NodeKind::Uses { resource } => "note",
        crate::graph::NodeKind::Bind { source, target } => "diamond",
        crate::graph::NodeKind::Clause { key, op, value } => "parallelogram",
        crate::graph::NodeKind::Stmt { label } => "box",
        crate::graph::NodeKind::TraceEvent { label } => "cds",
    }
}

fn edge_label_exec(kind: EdgeKind) -> (r: &'static str)
    ensures
        r@ == edge_label(kind),
{
    match kind {
        EdgeKind::Contains => "contains",
        EdgeKind::Next => "next",
        EdgeKind::Uses => "uses",
        EdgeKind::Clause => "clause",
        EdgeKind::Trace => "trace",
    }
}

#[verifier::rlimit(100)]
fn render_dot_inner(graph: &Graph, annotated: bool) -> (r: String)
    ensures
        r@ == dot_output(graph@, annotated),
{
    let mut out = String::from_str("digraph dustviz {\n");
    out.append("  rankdir=LR;\n");
    out.append("  node [shape=box, fontname=\"monospace\"];\n");
    out.append("  edge [fontname=\"monospace\"];\n");
    out.append("\n");
    proof {
        assert(out@ == dot_header());
    }

    let mut i: usize = 0;
    while i < graph.nodes.len()
        invariant
            i <= graph.nodes.len(),
            out@ == dot_header() + dot_nodes(graph@.nodes.take(i as int), annotated),
        decreases graph.nodes.len() - i,
    {
        proof {
            assert(graph@.nodes.take(i + 1).drop_last() =~= graph@.nodes.take(i as int));
            assert(graph@.nodes.take(i + 1).last() == graph@.nodes[i as int]);
            assert(graph@.nodes[i as int] == graph.nodes@[i as int]@);
        }
        let node = &graph.nodes[i];
        let label = node_label_exec(node);
        let escaped = dot_escape(label.as_str());
        let shape = node_shape_exec(node);
        out.append("  n");
        let id_str = usize_to_string(node.id);
        out.append(id_str.as_str());
        out.append(" [label=\"");
        out.append(escaped.as_str());
        out.append("\", shape=");
        out.append(shape);
        if annotated && node.attrs.len() > 0 {
            let tooltip = attrs_tooltip(&node.attrs);
            let tooltip_escaped = dot_escape(tooltip.as_str());
            out.append(", tooltip=\"");
            out.append(tooltip_escaped.as_str());
            out.append("\"];\n");
        } else {
            out.append("];\n");
        }
        i += 1;
    }
    proof {
        assert(graph@.nodes.take(graph.nodes@.len() as int) =~= graph@.nodes);
    }

    out.append("\n");

    let mut j: usize = 0;
    while j < graph.edges.len()
        invariant
            j <= graph.edges.len(),
            out@ == dot_header() + dot_nodes(graph@.nodes, annotated) + "\n"@ + dot_edges(
                graph@.edges.take(j as int),
                annotated,
            ),
        decreases graph.edges.len() - j,
    {
        proof {
            assert(graph@.edges.take(j + 1).drop_last() =~= graph@.edges.take(j as int));
            assert(graph@.edges.take(j + 1).last() == graph@.edges[j as int]);
            assert(graph@.edges[j as int] == graph.edges@[j as int]@);
        }
        let edge = &graph.edges[j];
        let label = edge_label_exec(edge.kind);
        let escaped = dot_escape(label);
        out.append("  n");
        let from_str = usize_to_string(edge.from);
        out.append(from_str.as_str());
        out.append(" -> n");
        let to_str = usize_to_string(edge.to);
        out.append(to_str.as_str());
        out.append(" [label=\"");
        out.append(escaped.as_str());
        out.append("\"");
        if annotated && edge.attrs.len() > 0 {
            let tooltip = attrs_tooltip(&edge.attrs);
            let tooltip_escaped = dot_escape(tooltip.as_str());
            out.append(", tooltip=\"");
            out.append(tooltip_escaped.as_str());
            out.append("\"];\n");
        } else {
            out.append("];\n");
        }
        j += 1;
    }
    proof {
        assert(graph@.edges.take(graph.edges@.len() as int) =~= graph@.edges);
    }

    out.append("}\n");
    out
}

/// Deterministic DOT text for a graph, visible labels only.
pub fn render_dot(graph: &Graph) -> (r: String)
    ensures
        r@ == dot_output(graph@, false),
{
    render_dot_inner(graph, false)
}

/// DOT text with attributes surfaced as tooltips; visible labels are
/// unchanged from `render_dot`.
pub fn render_dot_annotated(graph: &Graph) -> (r: String)
    ensures
        r@ == dot_output(graph@, true),
{
    render_dot_inner(graph, true)
}

} // verus!
