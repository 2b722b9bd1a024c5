use dustviz::{
    build_dir_graph, graph_to_json, overlay_constraints, render_dot, render_dot_annotated,
    ConstraintAttr, ConstraintId, ConstraintNode, ConstraintNodeKind, ConstraintsDocument,
    DirBind, DirClause, DirEffect, DirForge, DirProc, DirProgram, DirStmt, Graph, NodeKind,
};

fn tiny_program() -> DirProgram {
    DirProgram {
        forges: vec![DirForge {
            name: "core".to_string(),
            shapes: vec![],
            procs: vec![DirProc {
                regime: "strict".to_string(),
                name: "main".to_string(),
                params: vec![],
                uses: vec![],
                ret: None,
                qualifiers: vec![],
                body: vec![DirStmt::Effect(DirEffect {
                    kind: "log".to_string(),
                    payload: "start".to_string(),
                })],
            }],
            binds: vec![],
        }],
    }
}

#[test]
fn dot_output_is_exactly_the_expected_text() {
    let graph = build_dir_graph(&tiny_program());
    let dot = render_dot(&graph);
    let mut expected = String::new();
    expected.push_str("digraph dustviz {\n");
    expected.push_str("  rankdir=LR;\n");
    expected.push_str("  node [shape=box, fontname=\"monospace\"];\n");
    expected.push_str("  edge [fontname=\"monospace\"];\n");
    expected.push_str("\n");
    expected.push_str("  n0 [label=\"Program\", shape=oval];\n");
    expected.push_str("  n1 [label=\"Forge\\ncore\", shape=folder];\n");
    expected.push_str("  n2 [label=\"Proc [strict]\\nmain\", shape=component];\n");
    expected.push_str("  n3 [label=\"Stmt\\nEffect log start\", shape=box];\n");
    expected.push_str("\n");
    expected.push_str("  n0 -> n1 [label=\"contains\"];\n");
    expected.push_str("  n1 -> n2 [label=\"contains\"];\n");
    expected.push_str("  n2 -> n3 [label=\"contains\"];\n");
    expected.push_str("}\n");
    assert_eq!(dot, expected);
}

#[test]
fn dot_escapes_quotes_newlines_and_backslashes() {
    let program = DirProgram {
        forges: vec![DirForge {
            name: "a\"b\\c\nd\re".to_string(),
            shapes: vec![],
            procs: vec![],
            binds: vec![],
        }],
    };
    let graph = build_dir_graph(&program);
    let dot = render_dot(&graph);
    assert!(dot.contains("  n1 [label=\"Forge\\na\\\"b\\\\c\\nde\", shape=folder];\n"));
}

#[test]
fn annotated_dot_sorts_attributes_into_the_tooltip() {
    let mut graph = Graph::new();
    let doc = ConstraintsDocument {
        nodes: vec![ConstraintNode {
            id: ConstraintId("z1".to_string()),
            kind: ConstraintNodeKind::Rule,
            label: "r".to_string(),
            ir_ref: None,
            attrs: vec![
                ConstraintAttr { key: "zeta".to_string(), value: "2".to_string() },
                ConstraintAttr { key: "alpha".to_string(), value: "1".to_string() },
            ],
        }],
        edges: vec![],
    };
    overlay_constraints(&mut graph, &doc);

    let plain = render_dot(&graph);
    assert!(!plain.contains("tooltip"));

    let annotated = render_dot_annotated(&graph);
    assert!(annotated.contains(
        "tooltip=\"alpha=1\\nconstraint_id=z1\\nconstraint_kind=Rule\\nzeta=2\""
    ));
}

#[test]
fn json_model_collapses_attributes_last_write_wins() {
    let mut graph = Graph::new();
    let doc = ConstraintsDocument {
        nodes: vec![ConstraintNode {
            id: ConstraintId("c1".to_string()),
            kind: ConstraintNodeKind::Witness,
            label: "w".to_string(),
            ir_ref: None,
            attrs: vec![
                ConstraintAttr { key: "k".to_string(), value: "old".to_string() },
                ConstraintAttr { key: "k".to_string(), value: "new".to_string() },
                ConstraintAttr { key: "b".to_string(), value: "x".to_string() },
            ],
        }],
        edges: vec![],
    };
    overlay_constraints(&mut graph, &doc);

    let model = graph_to_json(&graph);
    assert_eq!(model.nodes.len(), 1);
    let n = &model.nodes[0];
    assert_eq!(n.kind, "Clause");
    assert_eq!(n.label, "constraint w Witness");
    let pairs: Vec<(String, String)> =
        n.attrs.iter().map(|a| (a.key.clone(), a.value.clone())).collect();
    assert_eq!(
        pairs,
        vec![
            ("b".to_string(), "x".to_string()),
            ("constraint_id".to_string(), "c1".to_string()),
            ("constraint_kind".to_string(), "Witness".to_string()),
            ("k".to_string(), "new".to_string()),
        ],
        "one value per key, the value written last, sorted by key"
    );
}

#[test]
fn json_model_mirrors_nodes_and_edges() {
    let graph = build_dir_graph(&tiny_program());
    let model = graph_to_json(&graph);
    assert_eq!(model.nodes.len(), graph.nodes.len());
    assert_eq!(model.edges.len(), graph.edges.len());
    assert_eq!(model.nodes[0].kind, "Program");
    assert_eq!(model.nodes[0].label, "Program");
    assert_eq!(model.nodes[1].kind, "Forge");
    assert_eq!(model.nodes[1].label, "core");
    assert_eq!(model.nodes[2].kind, "Proc");
    assert_eq!(model.nodes[2].label, "[strict] main");
    assert_eq!(model.nodes[3].kind, "Stmt");
    assert_eq!(model.nodes[3].label, "Effect log start");
    assert_eq!(model.edges[0].kind, "contains");
    assert_eq!(model.edges[0].from, 0);
    assert_eq!(model.edges[0].to, 1);
    // The statement's index attribute survives into the model.
    assert!(matches!(&graph.nodes[3].kind, NodeKind::Stmt { .. }));
    assert_eq!(model.nodes[3].attrs.len(), 1);
    assert_eq!(model.nodes[3].attrs[0].key, "index");
    assert_eq!(model.nodes[3].attrs[0].value, "0");
}

#[test]
fn dot_bind_label_uses_the_arrow_glyph() {
    let program = DirProgram {
        forges: vec![DirForge {
            name: "core".to_string(),
            shapes: vec![],
            procs: vec![],
            binds: vec![DirBind {
                source: "src".to_string(),
                target: "tgt".to_string(),
                contract: vec![DirClause {
                    key: "k".to_string(),
                    op: "=".to_string(),
                    value: "v".to_string(),
                }],
            }],
        }],
    };
    let graph = build_dir_graph(&program);
    let dot = render_dot(&graph);
    assert!(
        dot.contains("  n2 [label=\"Bind\\nsrc \u{2192} tgt\", shape=diamond];\n"),
        "the DOT Bind label joins source and target with the arrow glyph"
    );
    assert!(dot.contains("  n3 [label=\"Clause\\nk = v\", shape=parallelogram];\n"));

    // The JSON model, by contrast, spells the Bind label with an ASCII arrow.
    let model = graph_to_json(&graph);
    assert_eq!(model.nodes[2].kind, "Bind");
    assert_eq!(model.nodes[2].label, "src -> tgt");
}
