use dustviz::{
    build_dir_graph, focus_graph, link_constraint_ir_refs, overlay_constraints, overlay_trace,
    ConstraintAttr, ConstraintEdge, ConstraintEdgeKind, ConstraintId, ConstraintNode,
    ConstraintNodeKind, ConstraintsDocument, DirEffect, DirForge, DirProc, DirProgram, DirReturn,
    DirStmt, EdgeKind, IrRef, NodeIdSet, NodeKind, TraceDocument, TraceEvent, TraceEventKind,
};

fn one_proc_program(proc_name: &str, n_stmts: usize) -> DirProgram {
    let mut body = Vec::new();
    for i in 0..n_stmts {
        body.push(DirStmt::Effect(DirEffect {
            kind: "log".to_string(),
            payload: format!("s{}", i),
        }));
    }
    DirProgram {
        forges: vec![DirForge {
            name: "core".to_string(),
            shapes: vec![],
            procs: vec![DirProc {
                regime: "strict".to_string(),
                name: proc_name.to_string(),
                params: vec![],
                uses: vec![],
                ret: None,
                qualifiers: vec![],
                body,
            }],
            binds: vec![],
        }],
    }
}

fn cnode(id: &str, label: &str, ir_ref: Option<IrRef>) -> ConstraintNode {
    ConstraintNode {
        id: ConstraintId(id.to_string()),
        kind: ConstraintNodeKind::Obligation,
        label: label.to_string(),
        ir_ref,
        attrs: vec![],
    }
}

#[test]
fn overlay_adds_nodes_and_keeps_everything_already_there() {
    let program = one_proc_program("main", 2);
    let mut graph = build_dir_graph(&program);
    let before = graph.clone();

    let doc = ConstraintsDocument {
        nodes: vec![cnode("c1", "first", None), cnode("c2", "second", None)],
        edges: vec![ConstraintEdge {
            from: ConstraintId("c1".to_string()),
            to: ConstraintId("c2".to_string()),
            kind: ConstraintEdgeKind::DependsOn,
            attrs: vec![ConstraintAttr { key: "w".to_string(), value: "1".to_string() }],
        }],
    };
    let map = overlay_constraints(&mut graph, &doc);

    // Overlay additivity: every node/edge present before is still present,
    // unchanged, at the same id.
    for (i, n) in before.nodes.iter().enumerate() {
        assert_eq!(&graph.nodes[i], n);
    }
    for (j, e) in before.edges.iter().enumerate() {
        assert_eq!(&graph.edges[j], e);
    }

    assert_eq!(graph.nodes.len(), before.nodes.len() + 2);
    assert_eq!(graph.edges.len(), before.edges.len() + 1);

    // The new nodes carry the synthetic attributes.
    let c1_id = map.get(&"c1".to_string()).expect("c1 resolves");
    let c1 = &graph.nodes[c1_id];
    assert!(c1.attrs.iter().any(|a| a.key == "constraint_id" && a.value == "c1"));
    assert!(c1.attrs.iter().any(|a| a.key == "constraint_kind" && a.value == "Obligation"));

    // The constraint edge kind is mapped onto the fixed edge-kind set.
    let added = graph.edges.last().unwrap();
    assert_eq!(added.kind, EdgeKind::Uses);
    assert!(added.attrs.iter().any(|a| a.key == "w" && a.value == "1"));
}

#[test]
fn repeated_external_id_resolves_to_the_node_created_last() {
    let mut graph = dustviz::Graph::new();
    let doc = ConstraintsDocument {
        nodes: vec![cnode("dup", "first", None), cnode("dup", "second", None)],
        edges: vec![],
    };
    let map = overlay_constraints(&mut graph, &doc);
    assert_eq!(map.get(&"dup".to_string()), Some(1));
}

#[test]
fn unresolvable_constraint_edge_is_dropped() {
    let program = one_proc_program("main", 1);

    let nodes = vec![cnode("c1", "first", None)];
    let doc_without = ConstraintsDocument { nodes: nodes.clone(), edges: vec![] };
    let doc_with = ConstraintsDocument {
        nodes,
        edges: vec![ConstraintEdge {
            from: ConstraintId("c1".to_string()),
            to: ConstraintId("missing".to_string()),
            kind: ConstraintEdgeKind::Justifies,
            attrs: vec![],
        }],
    };

    let mut g1 = build_dir_graph(&program);
    overlay_constraints(&mut g1, &doc_without);
    let mut g2 = build_dir_graph(&program);
    overlay_constraints(&mut g2, &doc_with);

    assert_eq!(g1.edges.len(), g2.edges.len(), "the dangling edge is dropped");
    assert_eq!(g1.nodes.len(), g2.nodes.len());
}

#[test]
fn linker_links_resolvable_statement_reference() {
    let program = one_proc_program("main", 3);
    let mut graph = build_dir_graph(&program);
    let doc = ConstraintsDocument {
        nodes: vec![cnode(
            "c1",
            "points at stmt 1",
            Some(IrRef {
                proc: Some("main".to_string()),
                stmt_index: Some(1),
                symbol: Some("x".to_string()),
            }),
        )],
        edges: vec![],
    };
    let map = overlay_constraints(&mut graph, &doc);
    let edges_before = graph.edges.len();
    link_constraint_ir_refs(&mut graph, &doc, &map);
    assert_eq!(graph.edges.len(), edges_before + 1);

    let link = graph.edges.last().unwrap();
    assert_eq!(link.kind, EdgeKind::Clause);
    // Stmt nodes of main are ids 3, 4, 5; stmt_index 1 is node 4.
    assert_eq!(link.to, 4);
    assert!(link.attrs.iter().any(|a| a.key == "link" && a.value == "ir_ref"));
    assert!(link.attrs.iter().any(|a| a.key == "target" && a.value == "stmt"));
    assert!(link.attrs.iter().any(|a| a.key == "proc" && a.value == "main"));
    assert!(link.attrs.iter().any(|a| a.key == "stmt_index" && a.value == "1"));
    assert!(link.attrs.iter().any(|a| a.key == "symbol" && a.value == "x"));
}

#[test]
fn linker_falls_back_to_proc_when_statement_is_out_of_range() {
    let program = one_proc_program("main", 3);
    let mut graph = build_dir_graph(&program);
    let doc = ConstraintsDocument {
        nodes: vec![cnode(
            "c1",
            "points past the body",
            Some(IrRef {
                proc: Some("main".to_string()),
                stmt_index: Some(5),
                symbol: None,
            }),
        )],
        edges: vec![],
    };
    let map = overlay_constraints(&mut graph, &doc);
    link_constraint_ir_refs(&mut graph, &doc, &map);

    let main_proc_id = graph
        .nodes
        .iter()
        .find(|n| matches!(&n.kind, NodeKind::Proc { name, .. } if name == "main"))
        .map(|n| n.id)
        .unwrap();

    let link = graph.edges.last().unwrap();
    assert_eq!(link.kind, EdgeKind::Clause);
    assert_eq!(link.to, main_proc_id, "degrades to the Proc node, not an error");
    assert!(link.attrs.iter().any(|a| a.key == "target" && a.value == "proc"));
    assert!(!link.attrs.iter().any(|a| a.key == "stmt_index"));
}

#[test]
fn linker_adds_nothing_when_nothing_resolves() {
    let program = one_proc_program("main", 1);
    let mut graph = build_dir_graph(&program);
    let doc = ConstraintsDocument {
        nodes: vec![cnode(
            "c1",
            "unknown proc",
            Some(IrRef { proc: Some("ghostly".to_string()), stmt_index: None, symbol: None }),
        )],
        edges: vec![],
    };
    let map = overlay_constraints(&mut graph, &doc);
    let edges_before = graph.edges.len();
    link_constraint_ir_refs(&mut graph, &doc, &map);
    assert_eq!(graph.edges.len(), edges_before, "the node stays present but unlinked");
}

#[test]
fn trace_overlay_records_events_in_order_and_builds_the_focus_set() {
    let program = one_proc_program("main", 2);
    let mut graph = build_dir_graph(&program);
    let nodes_before = graph.nodes.len();

    let trace = TraceDocument {
        events: vec![
            TraceEvent {
                index: 0,
                kind: TraceEventKind::EnterProc { proc: "main".to_string() },
            },
            TraceEvent {
                index: 1,
                kind: TraceEventKind::StmtExec { proc: "main".to_string(), stmt_index: 0 },
            },
            TraceEvent {
                index: 2,
                kind: TraceEventKind::StmtExec { proc: "main".to_string(), stmt_index: 1 },
            },
        ],
    };
    let overlay = overlay_trace(&mut graph, &trace);

    assert_eq!(graph.nodes.len(), nodes_before + 3, "one node per event, none dropped");

    // Three event nodes plus three distinct targets (proc, stmt0, stmt1).
    assert_eq!(overlay.focus_nodes.len(), 6);
    for ev in 0..3usize {
        assert!(overlay.focus_nodes.contains(nodes_before + ev));
    }

    // Each event node has a Trace edge to its resolved target.
    let trace_edges: Vec<(usize, usize)> = graph
        .edges
        .iter()
        .filter(|e| e.kind == EdgeKind::Trace)
        .map(|e| (e.from, e.to))
        .collect();
    assert_eq!(trace_edges.len(), 3);
    assert_eq!(trace_edges[0], (nodes_before, 2), "enter_proc resolves to Proc(main)");
    assert_eq!(trace_edges[1], (nodes_before + 1, 3));
    assert_eq!(trace_edges[2], (nodes_before + 2, 4));

    // Focus keeps every Trace edge whose endpoints are both in the set.
    let focused = focus_graph(&graph, &overlay.focus_nodes);
    let kept: Vec<(usize, usize)> = focused
        .edges
        .iter()
        .filter(|e| e.kind == EdgeKind::Trace)
        .map(|e| (e.from, e.to))
        .collect();
    assert_eq!(kept, trace_edges);
}

#[test]
fn unresolvable_trace_event_is_kept_but_unlinked() {
    let program = one_proc_program("main", 1);
    let mut graph = build_dir_graph(&program);
    let nodes_before = graph.nodes.len();
    let trace = TraceDocument {
        events: vec![TraceEvent {
            index: 0,
            kind: TraceEventKind::ConstraintFailed {
                id: "nowhere".to_string(),
                reason: Some("missing".to_string()),
            },
        }],
    };
    let overlay = overlay_trace(&mut graph, &trace);
    assert_eq!(graph.nodes.len(), nodes_before + 1);
    assert!(graph.edges.iter().all(|e| e.kind != EdgeKind::Trace));
    assert_eq!(overlay.focus_nodes.len(), 1);
    assert!(overlay.focus_nodes.contains(nodes_before));

    let label = match &graph.nodes[nodes_before].kind {
        NodeKind::TraceEvent { label } => label.clone(),
        _ => panic!("expected a TraceEvent node"),
    };
    assert_eq!(label, "Trace\nConstraintFailed nowhere\nmissing");
}

#[test]
fn trace_events_resolve_constraint_nodes_by_external_id() {
    let program = one_proc_program("main", 1);
    let mut graph = build_dir_graph(&program);
    let doc = ConstraintsDocument { nodes: vec![cnode("c9", "watched", None)], edges: vec![] };
    let map = overlay_constraints(&mut graph, &doc);
    let c9_id = map.get(&"c9".to_string()).unwrap();

    let trace = TraceDocument {
        events: vec![TraceEvent {
            index: 0,
            kind: TraceEventKind::ConstraintAdded { id: "c9".to_string() },
        }],
    };
    let overlay = overlay_trace(&mut graph, &trace);
    let e = graph.edges.last().unwrap();
    assert_eq!(e.kind, EdgeKind::Trace);
    assert_eq!(e.to, c9_id);
    assert!(e.attrs.iter().any(|a| a.key == "trace_event" && a.value == "0"));
    assert!(overlay.focus_nodes.contains(c9_id));
}

#[test]
fn focus_is_idempotent_and_keeps_ids() {
    let program = one_proc_program("main", 3);
    let graph = build_dir_graph(&program);

    let mut set = NodeIdSet::new();
    set.insert(2);
    set.insert(3);
    set.insert(4);
    set.insert(4);
    assert_eq!(set.len(), 3, "inserting an id twice changes nothing");

    let once = focus_graph(&graph, &set);
    let twice = focus_graph(&once, &set);
    assert_eq!(once.nodes, twice.nodes);
    assert_eq!(once.edges, twice.edges);

    // Ids are preserved, not renumbered.
    assert_eq!(once.nodes.iter().map(|n| n.id).collect::<Vec<_>>(), vec![2, 3, 4]);
    // Only edges with both endpoints inside survive.
    assert!(once.edges.iter().all(|e| {
        set.contains(e.from) && set.contains(e.to)
    }));

    // An empty set yields an empty graph.
    let empty = focus_graph(&graph, &NodeIdSet::new());
    assert!(empty.nodes.is_empty());
    assert!(empty.edges.is_empty());
}
