use dustviz::strutil::{parse_usize, usize_to_string};
use dustviz::{
    build_dir_graph, DirBind, DirClause, DirEffect, DirForge, DirProc, DirProgram, DirReturn,
    DirShape, DirStmt, EdgeKind, NodeKind,
};

fn minimal_program() -> DirProgram {
    DirProgram {
        forges: vec![DirForge {
            name: "core".to_string(),
            shapes: vec![],
            procs: vec![DirProc {
                regime: "strict".to_string(),
                name: "main".to_string(),
                params: vec![],
                uses: vec![],
                ret: None,
                qualifiers: vec![],
                body: vec![
                    DirStmt::Effect(DirEffect {
                        kind: "log".to_string(),
                        payload: "start".to_string(),
                    }),
                    DirStmt::Return(DirReturn { expr: "ok".to_string() }),
                ],
            }],
            binds: vec![],
        }],
    }
}

#[test]
fn builds_basic_program_forge_proc_stmt_structure() {
    let program = minimal_program();
    let graph = build_dir_graph(&program);

    assert!(
        graph.nodes.iter().any(|n| matches!(n.kind, NodeKind::Program)),
        "expected a Program node"
    );

    assert!(
        graph
            .nodes
            .iter()
            .any(|n| matches!(&n.kind, NodeKind::Forge { name } if name == "core")),
        "expected Forge(core)"
    );

    assert!(
        graph
            .nodes
            .iter()
            .any(|n| matches!(&n.kind, NodeKind::Proc { name, .. } if name == "main")),
        "expected Proc(main)"
    );

    assert!(
        graph.nodes.iter().any(|n| matches!(&n.kind, NodeKind::Stmt { .. })),
        "expected at least one Stmt node"
    );

    assert!(
        graph.edges.iter().any(|e| e.kind == EdgeKind::Contains),
        "expected at least one Contains edge"
    );

    let program_id = graph
        .nodes
        .iter()
        .find(|n| matches!(n.kind, NodeKind::Program))
        .map(|n| n.id)
        .expect("Program node id");

    let core_forge_id = graph
        .nodes
        .iter()
        .find(|n| matches!(&n.kind, NodeKind::Forge { name } if name == "core"))
        .map(|n| n.id)
        .expect("Forge(core) id");

    assert!(
        graph.edges.iter().any(|e| {
            e.kind == EdgeKind::Contains && e.from == program_id && e.to == core_forge_id
        }),
        "expected Program contains Forge(core)"
    );

    let main_proc_id = graph
        .nodes
        .iter()
        .find(|n| matches!(&n.kind, NodeKind::Proc { name, .. } if name == "main"))
        .map(|n| n.id)
        .expect("Proc(main) id");

    assert!(
        graph.edges.iter().any(|e| {
            e.kind == EdgeKind::Contains && e.from == core_forge_id && e.to == main_proc_id
        }),
        "expected Forge(core) contains Proc(main)"
    );
}

#[test]
fn statement_next_edges_follow_body_order() {
    let program = minimal_program();
    let graph = build_dir_graph(&program);

    let stmt_ids: Vec<usize> = graph
        .nodes
        .iter()
        .filter_map(|n| match &n.kind {
            NodeKind::Stmt { .. } => Some(n.id),
            _ => None,
        })
        .collect();

    assert!(
        stmt_ids.len() >= 2,
        "expected at least two Stmt nodes in the minimal fixture"
    );

    let a = stmt_ids[0];
    let b = stmt_ids[1];

    assert!(
        graph.edges.iter().any(|e| e.kind == EdgeKind::Next && e.from == a && e.to == b),
        "expected Next edge between first and second statement nodes"
    );
}

#[test]
fn building_twice_yields_identical_graphs() {
    let program = minimal_program();
    let g1 = build_dir_graph(&program);
    let g2 = build_dir_graph(&program);
    assert_eq!(g1.nodes, g2.nodes);
    assert_eq!(g1.edges, g2.edges);
}

fn stmt(expr: &str) -> DirStmt {
    DirStmt::Return(DirReturn { expr: expr.to_string() })
}

fn proc_with_body(name: &str, body: Vec<DirStmt>) -> DirProc {
    DirProc {
        regime: "strict".to_string(),
        name: name.to_string(),
        params: vec![],
        uses: vec![],
        ret: None,
        qualifiers: vec![],
        body,
    }
}

#[test]
fn next_edges_chain_three_statements_and_stay_inside_one_proc() {
    let program = DirProgram {
        forges: vec![DirForge {
            name: "f".to_string(),
            shapes: vec![],
            procs: vec![
                proc_with_body("alpha", vec![stmt("a0"), stmt("a1"), stmt("a2")]),
                proc_with_body("beta", vec![stmt("b0"), stmt("b1")]),
            ],
            binds: vec![],
        }],
    };
    let graph = build_dir_graph(&program);

    // alpha: Proc node id 2, stmts 3,4,5.  beta: Proc node id 6, stmts 7,8.
    assert!(matches!(&graph.nodes[2].kind, NodeKind::Proc { name, .. } if name == "alpha"));
    assert!(matches!(&graph.nodes[6].kind, NodeKind::Proc { name, .. } if name == "beta"));

    let next_edges: Vec<(usize, usize)> = graph
        .edges
        .iter()
        .filter(|e| e.kind == EdgeKind::Next)
        .map(|e| (e.from, e.to))
        .collect();
    assert_eq!(next_edges, vec![(3, 4), (4, 5), (7, 8)]);

    // No Next edge crosses the procedure boundary: 5 -> 7 is absent.
    assert!(!next_edges.contains(&(5, 7)));
    assert!(!next_edges.contains(&(5, 6)));
}

#[test]
fn containment_counts_match_declarations() {
    let program = DirProgram {
        forges: vec![
            DirForge {
                name: "one".to_string(),
                shapes: vec![
                    DirShape { name: "s1".to_string(), fields: vec![] },
                    DirShape { name: "s2".to_string(), fields: vec![] },
                ],
                procs: vec![proc_with_body("p", vec![stmt("x")])],
                binds: vec![DirBind {
                    source: "a".to_string(),
                    target: "b".to_string(),
                    contract: vec![DirClause {
                        key: "k".to_string(),
                        op: "=".to_string(),
                        value: "v".to_string(),
                    }],
                }],
            },
            DirForge {
                name: "two".to_string(),
                shapes: vec![],
                procs: vec![],
                binds: vec![],
            },
        ],
    };
    let graph = build_dir_graph(&program);

    let program_id = 0usize;
    let from_program = graph
        .edges
        .iter()
        .filter(|e| e.kind == EdgeKind::Contains && e.from == program_id)
        .count();
    assert_eq!(from_program, 2, "one Contains edge per top-level forge");

    let forge_one_id = graph
        .nodes
        .iter()
        .find(|n| matches!(&n.kind, NodeKind::Forge { name } if name == "one"))
        .map(|n| n.id)
        .unwrap();
    let from_forge_one = graph
        .edges
        .iter()
        .filter(|e| e.kind == EdgeKind::Contains && e.from == forge_one_id)
        .count();
    assert_eq!(from_forge_one, 4, "one Contains edge per shape, proc and bind");

    let forge_two_id = graph
        .nodes
        .iter()
        .find(|n| matches!(&n.kind, NodeKind::Forge { name } if name == "two"))
        .map(|n| n.id)
        .unwrap();
    let from_forge_two = graph
        .edges
        .iter()
        .filter(|e| e.kind == EdgeKind::Contains && e.from == forge_two_id)
        .count();
    assert_eq!(from_forge_two, 0);
}

#[test]
fn end_to_end_minimal_program_shape() {
    let program = minimal_program();
    let graph = build_dir_graph(&program);

    assert_eq!(graph.nodes.len(), 5, "1 Program + 1 Forge + 1 Proc + 2 Stmt");
    let contains = graph.edges.iter().filter(|e| e.kind == EdgeKind::Contains).count();
    assert_eq!(contains, 4);
    let next: Vec<(usize, usize)> = graph
        .edges
        .iter()
        .filter(|e| e.kind == EdgeKind::Next)
        .map(|e| (e.from, e.to))
        .collect();
    assert_eq!(next, vec![(3, 4)], "one Next edge from stmt0 to stmt1");

    // Statement labels carry the variant and its fields verbatim.
    assert!(matches!(&graph.nodes[3].kind, NodeKind::Stmt { label } if label == "Effect log start"));
    assert!(matches!(&graph.nodes[4].kind, NodeKind::Stmt { label } if label == "Return ok"));

    // The builder records each statement's position as an attribute.
    assert_eq!(graph.nodes[3].attrs.len(), 1);
    assert_eq!(graph.nodes[3].attrs[0].key, "index");
    assert_eq!(graph.nodes[3].attrs[0].value, "0");
    assert_eq!(graph.nodes[4].attrs[0].value, "1");
}

#[test]
fn decimal_rendering_and_parsing() {
    assert_eq!(usize_to_string(0), "0");
    assert_eq!(usize_to_string(7), "7");
    assert_eq!(usize_to_string(42), "42");
    assert_eq!(usize_to_string(1005), "1005");
    assert_eq!(parse_usize("0"), Some(0));
    assert_eq!(parse_usize("42"), Some(42));
    assert_eq!(parse_usize("+7"), Some(7));
    assert_eq!(parse_usize(""), None);
    assert_eq!(parse_usize("+"), None);
    assert_eq!(parse_usize("12a"), None);
    assert_eq!(parse_usize("-3"), None);
    assert_eq!(parse_usize("99999999999999999999999999"), None);
}
