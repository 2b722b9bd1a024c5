//! Merging an ordered trace event stream into an existing graph.
//!
//! Every event becomes one TraceEvent node, in event order; an event whose
//! target resolves — a procedure by name, a statement by (name, position), a
//! constraint by external id — also gets a Trace edge to that target.  The
//! pass returns the focus set: every event node plus every resolved target.
//! An event whose target does not resolve is still added, unlinked.

use vstd::prelude::*;

use crate::constraints::{table_lookup, IdTable};
use crate::graph::{
    attrs_view, lemma_extends_refl, lemma_extends_trans, lemma_push_edge_attr_extends_beyond,
    lemma_push_edge_attr_wf, lemma_push_edge_extends, lemma_push_edge_wf, lemma_push_node_extends,
    lemma_push_node_wf, Attr, AttrView, EdgeKind, Graph, GraphView, NodeId, NodeIdSet, NodeKind,
    NodeKindView, NodeView,
};
use crate::link_ir_refs::{
    attr_first, index_procs, index_stmts_by_proc, lemma_proc_table_range,
    lemma_stmt_table_lookup_entry, lemma_stmt_table_range, spec_proc_table, spec_stmt_table,
    stmt_table_lookup, StmtTable,
};
use crate::strutil::{dec_str, usize_to_string};
use crate::trace::{TraceDocument, TraceEventKind, TraceEventKindView, TraceEventView};
use vstd::string::StringExecFns;

verus! {

/// The focus set and the graph, as one result.
pub struct TraceOverlay {
    pub focus_nodes: NodeIdSet,
}

/// The constraint index: every node carrying a `constraint_id` attribute, by
/// that attribute's first value; a later node shadows an earlier one.
pub open spec fn spec_constraint_table(nodes: Seq<NodeView>) -> Seq<(Seq<char>, int)>
    decreases nodes.len(),
{
    if nodes.len() == 0 {
        Seq::empty()
    } else {
        let t = spec_constraint_table(nodes.drop_last());
        match attr_first(nodes.last().attrs, "constraint_id"@) {
            Some(v) => t.push((v, nodes.last().id)),
            None => t,
        }
    }
}

/// Every id the constraint index holds names an existing node.
pub proof fn lemma_constraint_table_range(nodes: Seq<NodeView>)
    requires
        forall|i: int| 0 <= i < nodes.len() ==> (#[trigger] nodes[i]).id == i,
    ensures
        forall|k: int|
            0 <= k < spec_constraint_table(nodes).len() ==> 0 <= (#[trigger] spec_constraint_table(
                nodes,
            )[k]).1 < nodes.len(),
    decreases nodes.len(),
{
    if nodes.len() > 0 {
        assert forall|i: int| 0 <= i < nodes.drop_last().len() implies (#[trigger] nodes.drop_last(
        )[i]).id == i by {
            assert(nodes.drop_last()[i] == nodes[i]);
        };
        lemma_constraint_table_range(nodes.drop_last());
        let t = spec_constraint_table(nodes.drop_last());
        assert(nodes.last().id == nodes.len() - 1);
        assert forall|k: int| 0 <= k < spec_constraint_table(nodes).len() implies 0 <= (
        #[trigger] spec_constraint_table(nodes)[k]).1 < nodes.len() by {
            if k < t.len() {
                assert(spec_constraint_table(nodes)[k] == t[k]);
            }
        };
    }
}

/// The human-readable label of one event.
pub open spec fn event_label(k: TraceEventKindView) -> Seq<char> {
    match k {
        TraceEventKindView::EnterProc { proc } => "Trace\nEnterProc "@ + proc,
        TraceEventKindView::StmtExec { proc, stmt_index } => "Trace\nStmtExec "@ + proc + ":"@
            + dec_str(stmt_index),
        TraceEventKindView::ConstraintAdded { id } => "Trace\nConstraintAdded "@ + id,
        TraceEventKindView::ConstraintFailed { id, reason } => match reason {
            Some(r) => "Trace\nConstraintFailed "@ + id + "\n"@ + r,
            None => "Trace\nConstraintFailed "@ + id,
        },
    }
}

/// The attributes of one event node.
pub open spec fn event_attrs(e: TraceEventView) -> Seq<AttrView> {
    let base = seq![
        AttrView { key: "kind"@, value: "trace_event"@ },
        AttrView { key: "event_index"@, value: dec_str(e.index) },
    ];
    match e.kind {
        TraceEventKindView::EnterProc { proc } => base + seq![
            AttrView { key: "event_kind"@, value: "enter_proc"@ },
            AttrView { key: "proc"@, value: proc },
        ],
        TraceEventKindView::StmtExec { proc, stmt_index } => base + seq![
            AttrView { key: "event_kind"@, value: "stmt_exec"@ },
            AttrView { key: "proc"@, value: proc },
            AttrView { key: "stmt_index"@, value: dec_str(stmt_index) },
        ],
        TraceEventKindView::ConstraintAdded { id } => base + seq![
            AttrView { key: "event_kind"@, value: "constraint_added"@ },
            AttrView { key: "constraint_id"@, value: id },
        ],
        TraceEventKindView::ConstraintFailed { id, reason } => (base + seq![
            AttrView { key: "event_kind"@, value: "constraint_failed"@ },
            AttrView { key: "constraint_id"@, value: id },
        ]) + (match reason {
            Some(r) => seq![AttrView { key: "reason"@, value: r }],
            None => Seq::empty(),
        }),
    }
}

/// What one event resolves to, if anything.
pub open spec fn event_target(
    procs: Seq<(Seq<char>, int)>,
    stmts: Seq<(Seq<char>, int, int)>,
    ctable: Seq<(Seq<char>, int)>,
    k: TraceEventKindView,
) -> Option<int> {
    match k {
        TraceEventKindView::EnterProc { proc } => table_lookup(procs, proc),
        TraceEventKindView::StmtExec { proc, stmt_index } => stmt_table_lookup(
            stmts,
            proc,
            stmt_index,
        ),
        TraceEventKindView::ConstraintAdded { id } => table_lookup(ctable, id),
        TraceEventKindView::ConstraintFailed { id, reason } => table_lookup(ctable, id),
    }
}

/// One event merged: its node, its membership in the focus set, and — when
/// its target resolves — a Trace edge to the target and the target's
/// membership in the focus set.
pub open spec fn spec_overlay_event(
    g: GraphView,
    procs: Seq<(Seq<char>, int)>,
    stmts: Seq<(Seq<char>, int, int)>,
    ctable: Seq<(Seq<char>, int)>,
    f: Set<int>,
    e: TraceEventView,
) -> (GraphView, Set<int>) {
    let nid = g.next_node_id();
    let g1 = g.push_node(NodeKindView::TraceEvent { label: event_label(e.kind) }, event_attrs(e));
    let f1 = f.insert(nid);
    match event_target(procs, stmts, ctable, e.kind) {
        Some(tid) => {
            let eid = g1.next_edge_id();
            let g2 = g1.push_edge(EdgeKind::Trace, nid, tid).push_edge_attr(
                eid,
                AttrView { key: "trace_event"@, value: dec_str(e.index) },
            );
            (g2, f1.insert(tid))
        },
        None => (g1, f1),
    }
}

pub open spec fn spec_overlay_events(
    g: GraphView,
    procs: Seq<(Seq<char>, int)>,
    stmts: Seq<(Seq<char>, int, int)>,
    ctable: Seq<(Seq<char>, int)>,
    f: Set<int>,
    events: Seq<TraceEventView>,
) -> (GraphView, Set<int>)
    decreases events.len(),
{
    if events.len() == 0 {
        (g, f)
    } else {
        let (g1, f1) = spec_overlay_events(g, procs, stmts, ctable, f, events.drop_last());
        spec_overlay_event(g1, procs, stmts, ctable, f1, events.last())
    }
}

/// The whole trace overlay, with all three indices taken from the graph as
/// it stands when the pass starts and an empty focus set.
pub open spec fn spec_overlay_trace(g: GraphView, events: Seq<TraceEventView>) -> (
    GraphView,
    Set<int>,
) {
    spec_overlay_events(
        g,
        spec_proc_table(g.nodes),
        spec_stmt_table(g, g.edges),
        spec_constraint_table(g.nodes),
        Set::empty(),
        events,
    )
}

/// Structural facts of the event phase: the graph before it survives as a
/// prefix and well-formedness is kept.
pub proof fn lemma_overlay_events_props(
    g: GraphView,
    procs: Seq<(Seq<char>, int)>,
    stmts: Seq<(Seq<char>, int, int)>,
    ctable: Seq<(Seq<char>, int)>,
    f: Set<int>,
    events: Seq<TraceEventView>,
)
    requires
        g.wf(),
        forall|k: int| 0 <= k < procs.len() ==> 0 <= (#[trigger] procs[k]).1 < g.nodes.len(),
        forall|k: int| 0 <= k < stmts.len() ==> 0 <= (#[trigger] stmts[k]).2 < g.nodes.len(),
        forall|k: int| 0 <= k < ctable.len() ==> 0 <= (#[trigger] ctable[k]).1 < g.nodes.len(),
    ensures
        ({
            let (g2, f2) = spec_overlay_events(g, procs, stmts, ctable, f, events);
            &&& g.extends(g2)
            &&& g2.wf()
        }),
    decreases events.len(),
{
    if events.len() == 0 {
        lemma_extends_refl(g);
    } else {
        lemma_overlay_events_props(g, procs, stmts, ctable, f, events.drop_last());
        let (g1, f1) = spec_overlay_events(g, procs, stmts, ctable, f, events.drop_last());
        let e = events.last();
        let nid = g1.next_node_id();
        let ga = g1.push_node(
            NodeKindView::TraceEvent { label: event_label(e.kind) },
            event_attrs(e),
        );
        lemma_push_node_wf(g1, NodeKindView::TraceEvent { label: event_label(e.kind) }, event_attrs(e));
        lemma_push_node_extends(
            g1,
            NodeKindView::TraceEvent { label: event_label(e.kind) },
            event_attrs(e),
        );
        lemma_extends_trans(g, g1, ga);
        match event_target(procs, stmts, ctable, e.kind) {
            Some(tid) => {
                match e.kind {
                    TraceEventKindView::EnterProc { proc } => {
                        crate::constraints::lemma_table_lookup_entry(procs, proc);
                    },
                    TraceEventKindView::StmtExec { proc, stmt_index } => {
                        lemma_stmt_table_lookup_entry(stmts, proc, stmt_index);
                    },
                    TraceEventKindView::ConstraintAdded { id } => {
                        crate::constraints::lemma_table_lookup_entry(ctable, id);
                    },
                    TraceEventKindView::ConstraintFailed { id, reason } => {
                        crate::constraints::lemma_table_lookup_entry(ctable, id);
                    },
                }
                let eid = ga.next_edge_id();
                let gb = ga.push_edge(EdgeKind::Trace, nid, tid);
                lemma_push_edge_wf(ga, EdgeKind::Trace, nid, tid);
                lemma_push_edge_extends(ga, EdgeKind::Trace, nid, tid);
                lemma_extends_trans(g, ga, gb);
                lemma_push_edge_attr_wf(gb, eid, AttrView {
                    key: "trace_event"@,
                    value: dec_str(e.index),
                });
                lemma_push_edge_attr_extends_beyond(g, gb, eid, AttrView {
                    key: "trace_event"@,
                    value: dec_str(e.index),
                });
            },
            None => {},
        }
    }
}

fn index_constraints(graph: &Graph) -> (ctable: IdTable)
    ensures
        ctable@ == spec_constraint_table(graph@.nodes),
{
    let mut ctable = IdTable::new();
    let key = String::from_str("constraint_id");
    let mut i: usize = 0;
    while i < graph.nodes.len()
        invariant
            i <= graph.nodes.len(),
            key@ == "constraint_id"@,
            ctable@ == spec_constraint_table(graph@.nodes.take(i as int)),
        decreases graph.nodes.len() - i,
    {
        proof {
            assert(graph@.nodes.take(i + 1).drop_last() =~= graph@.nodes.take(i as int));
            assert(graph@.nodes.take(i + 1).last() == graph@.nodes[i as int]);
            assert(graph@.nodes[i as int] == graph.nodes@[i as int]@);
        }
        let node = &graph.nodes[i];
        match crate::link_ir_refs::attr_first_exec(&node.attrs, &key) {
            Some(v) => {
                ctable.insert(v.clone(), node.id);
            },
            None => {},
        }
        i += 1;
    }
    proof {
        assert(graph@.nodes.take(graph.nodes@.len() as int) =~= graph@.nodes);
    }
    ctable
}

fn describe_event(
    index: usize,
    kind: &TraceEventKind,
    procs: &IdTable,
    stmts: &StmtTable,
    ctable: &IdTable,
) -> (r: (String, Vec<Attr>, Option<NodeId>))
    ensures
        r.0@ == event_label(kind@),
        attrs_view(r.1@) == event_attrs(TraceEventView { index: index as int, kind: kind@ }),
        match event_target(procs@, stmts@, ctable@, kind@) {
            Some(v) => r.2 is Some && r.2.unwrap() as int == v,
            None => r.2 is None,
        },
{
    let mut attrs: Vec<Attr> = Vec::new();
    attrs.push(Attr { key: String::from_str("kind"), value: String::from_str("trace_event") });
    attrs.push(Attr { key: String::from_str("event_index"), value: usize_to_string(index) });
    match kind {
        TraceEventKind::EnterProc { proc } => {
            attrs.push(
                Attr { key: String::from_str("event_kind"), value: String::from_str("enter_proc") },
            );
            attrs.push(Attr { key: String::from_str("proc"), value: proc.clone() });
            let mut label = String::from_str("Trace\nEnterProc ");
            label.append(proc.as_str());
            let target = procs.get(proc);
            proof {
                assert(attrs_view(attrs@) =~~= event_attrs(
                    TraceEventView { index: index as int, kind: kind@ },
                ));
            }
            (label, attrs, target)
        },
        TraceEventKind::StmtExec { proc, stmt_index } => {
            attrs.push(
                Attr { key: String::from_str("event_kind"), value: String::from_str("stmt_exec") },
            );
            attrs.push(Attr { key: String::from_str("proc"), value: proc.clone() });
            attrs.push(
                Attr { key: String::from_str("stmt_index"), value: usize_to_string(*stmt_index) },
            );
            let mut label = String::from_str("Trace\nStmtExec ");
            label.append(proc.as_str());
            label.append(":");
            let num = usize_to_string(*stmt_index);
            label.append(num.as_str());
            let target = stmts.get(proc, *stmt_index);
            proof {
                assert(attrs_view(attrs@) =~~= event_attrs(
                    TraceEventView { index: index as int, kind: kind@ },
                ));
            }
            (label, attrs, target)
        },
        TraceEventKind::ConstraintAdded { id } => {
            attrs.push(
                Attr {
                    key: String::from_str("event_kind"),
                    value: String::from_str("constraint_added"),
                },
            );
            attrs.push(Attr { key: String::from_str("constraint_id"), value: id.clone() });
            let mut label = String::from_str("Trace\nConstraintAdded ");
            label.append(id.as_str());
            let target = ctable.get(id);
            proof {
                assert(attrs_view(attrs@) =~~= event_attrs(
                    TraceEventView { index: index as int, kind: kind@ },
                ));
            }
            (label, attrs, target)
        },
        TraceEventKind::ConstraintFailed { id, reason } => {
            attrs.push(
                Attr {
                    key: String::from_str("event_kind"),
                    value: String::from_str("constraint_failed"),
                },
            );
            attrs.push(Attr { key: String::from_str("constraint_id"), value: id.clone() });
            let mut label = String::from_str("Trace\nConstraintFailed ");
            label.append(id.as_str());
            match reason {
                Some(r) => {
                    attrs.push(Attr { key: String::from_str("reason"), value: r.clone() });
                    label.append("\n");
                    label.append(r.as_str());
                },
                None => {},
            }
            let target = ctable.get(id);
            proof {
                assert(attrs_view(attrs@) =~~= event_attrs(
                    TraceEventView { index: index as int, kind: kind@ },
                ));
            }
            (label, attrs, target)
        },
    }
}

/// Overlay a trace event stream onto an existing graph.
///
/// Event order is preserved one to one in node order; no event is dropped or
/// reordered.  The focus set of the result holds exactly every event node's
/// id and every resolved target's id.  Everything already in the graph is
/// still present, unchanged, at the same id.
pub fn overlay_trace(graph: &mut Graph, trace: &TraceDocument) -> (overlay: TraceOverlay)
    requires
        old(graph)@.wf(),
    ensures
        final(graph)@ == spec_overlay_trace(old(graph)@, trace@.events).0,
        overlay.focus_nodes@ == spec_overlay_trace(old(graph)@, trace@.events).1,
        overlay.focus_nodes.inv(),
        final(graph)@.wf(),
        old(graph)@.extends(final(graph)@),
{
    let ghost g0 = graph@;
    let procs = index_procs(graph);
    let stmts = index_stmts_by_proc(graph, &procs);
    let ctable = index_constraints(graph);
    let ghost procsv = procs@;
    let ghost stmtsv = stmts@;
    let ghost ctablev = ctable@;
    proof {
        lemma_proc_table_range(g0.nodes);
        lemma_stmt_table_range(g0, g0.edges);
        lemma_constraint_table_range(g0.nodes);
    }

    let mut focus_nodes = NodeIdSet::new();
    let mut i: usize = 0;
    while i < trace.events.len()
        invariant
            i <= trace.events.len(),
            g0.wf(),
            trace@.events.len() == trace.events@.len(),
            procsv == procs@,
            stmtsv == stmts@,
            ctablev == ctable@,
            forall|k: int| 0 <= k < procsv.len() ==> 0 <= (#[trigger] procsv[k]).1 < g0.nodes.len(),
            forall|k: int| 0 <= k < stmtsv.len() ==> 0 <= (#[trigger] stmtsv[k]).2 < g0.nodes.len(),
            forall|k: int|
                0 <= k < ctablev.len() ==> 0 <= (#[trigger] ctablev[k]).1 < g0.nodes.len(),
            graph@ == spec_overlay_events(
                g0,
                procsv,
                stmtsv,
                ctablev,
                Set::empty(),
                trace@.events.take(i as int),
            ).0,
            focus_nodes@ == spec_overlay_events(
                g0,
                procsv,
                stmtsv,
                ctablev,
                Set::empty(),
                trace@.events.take(i as int),
            ).1,
            focus_nodes.inv(),
        decreases trace.events.len() - i,
    {
        proof {
            assert(trace@.events[i as int] == trace.events@[i as int]@);
            lemma_overlay_events_props(
                g0,
                procsv,
                stmtsv,
                ctablev,
                Set::empty(),
                trace@.events.take(i as int),
            );
        }
        let ghost gpre = graph@;
        let ghost fpre = focus_nodes@;
        let event = &trace.events[i];
        let (label, attrs, target) = describe_event(event.index, &event.kind, &procs, &stmts, &ctable);
        let event_node_id = graph.add_node_with_attrs(NodeKind::TraceEvent { label }, attrs);
        focus_nodes.insert(event_node_id);
        match target {
            Some(target_id) => {
                proof {
                    match trace@.events[i as int].kind {
                        TraceEventKindView::EnterProc { proc } => {
                            crate::constraints::lemma_table_lookup_entry(procsv, proc);
                        },
                        TraceEventKindView::StmtExec { proc, stmt_index } => {
                            lemma_stmt_table_lookup_entry(stmtsv, proc, stmt_index);
                        },
                        TraceEventKindView::ConstraintAdded { id } => {
                            crate::constraints::lemma_table_lookup_entry(ctablev, id);
                        },
                        TraceEventKindView::ConstraintFailed { id, reason } => {
                            crate::constraints::lemma_table_lookup_entry(ctablev, id);
                        },
                    }
                }
                let edge_id = graph.add_edge(EdgeKind::Trace, event_node_id, target_id);
                graph.add_edge_attr(
                    edge_id,
                    String::from_str("trace_event"),
                    usize_to_string(event.index),
                );
                focus_nodes.insert(target_id);
            },
            None => {},
        }
        proof {
            assert(trace@.events.take(i + 1).drop_last() =~= trace@.events.take(i as int));
            assert(trace@.events.take(i + 1).last() == trace@.events[i as int]);
            assert(graph@ == spec_overlay_event(
                gpre,
                procsv,
                stmtsv,
                ctablev,
                fpre,
                trace@.events[i as int],
            ).0);
            assert(focus_nodes@ == spec_overlay_event(
                gpre,
                procsv,
                stmtsv,
                ctablev,
                fpre,
                trace@.events[i as int],
            ).1);
        }
        i += 1;
    }
    proof {
        assert(trace@.events.take(trace@.events.len() as int) =~= trace@.events);
        lemma_overlay_events_props(g0, procsv, stmtsv, ctablev, Set::empty(), trace@.events);
    }
    TraceOverlay { focus_nodes }
}

} // verus!
