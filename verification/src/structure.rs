//! Structural properties of the built graph: determinism, statement
//! ordering, and containment shape.

use vstd::prelude::*;

use crate::builder::{
    spec_add_bind, spec_add_binds, spec_add_clauses, spec_add_forge, spec_add_forges,
    spec_add_proc, spec_add_procs, spec_add_shapes, spec_add_stmts, spec_add_uses, spec_build,
    stmt_label,
};
use crate::graph::{
    lemma_extends_refl, lemma_extends_trans, EdgeKind, GraphView, NodeKindView,
};
use crate::ir::{DirBindView, DirForgeView, DirProcView, DirProgramView, DirStmtView};

verus! {

/// Building twice from the same program tree yields the same graph: the
/// built graph is a function of the tree alone.
pub proof fn lemma_build_deterministic(p1: DirProgramView, p2: DirProgramView)
    requires
        p1 == p2,
    ensures
        spec_build(p1) == spec_build(p2),
{
}

/// The edge at position `j` has this kind and these endpoints.
pub open spec fn is_edge(g: GraphView, j: int, kind: EdgeKind, from: int, to: int) -> bool {
    &&& g.edges[j].kind == kind
    &&& g.edges[j].from == from
    &&& g.edges[j].to == to
}

/// How many nodes the procedures of one forge contribute.
pub open spec fn procs_node_count(ps: Seq<DirProcView>) -> int
    decreases ps.len(),
{
    if ps.len() == 0 {
        0
    } else {
        procs_node_count(ps.drop_last()) + 1 + ps.last().uses.len() + ps.last().body.len()
    }
}

/// How many nodes the binds of one forge contribute.
pub open spec fn binds_node_count(bs: Seq<DirBindView>) -> int
    decreases bs.len(),
{
    if bs.len() == 0 {
        0
    } else {
        binds_node_count(bs.drop_last()) + 1 + bs.last().contract.len()
    }
}

/// How many nodes one forge subtree contributes.
pub open spec fn forge_node_count(f: DirForgeView) -> int {
    1 + f.shapes.len() + procs_node_count(f.procs) + binds_node_count(f.binds)
}

pub open spec fn forges_node_count(fs: Seq<DirForgeView>) -> int
    decreases fs.len(),
{
    if fs.len() == 0 {
        0
    } else {
        forges_node_count(fs.drop_last()) + forge_node_count(fs.last())
    }
}

pub proof fn lemma_add_stmts_size(g: GraphView, pid: int, body: Seq<DirStmtView>)
    ensures
        g.extends(spec_add_stmts(g, pid, body)),
        spec_add_stmts(g, pid, body).nodes.len() == g.nodes.len() + body.len(),
    decreases body.len(),
{
    lemma_extends_refl(g);
    if body.len() > 0 {
        lemma_add_stmts_size(g, pid, body.drop_last());
        let g1 = spec_add_stmts(g, pid, body.drop_last());
        assert(g1.extends(spec_add_stmts(g, pid, body)));
        lemma_extends_trans(g, g1, spec_add_stmts(g, pid, body));
    }
}

pub proof fn lemma_add_uses_size(g: GraphView, pid: int, uses: Seq<crate::ir::DirUsesView>)
    ensures
        g.extends(spec_add_uses(g, pid, uses)),
        spec_add_uses(g, pid, uses).nodes.len() == g.nodes.len() + uses.len(),
    decreases uses.len(),
{
    lemma_extends_refl(g);
    if uses.len() > 0 {
        lemma_add_uses_size(g, pid, uses.drop_last());
        assert(spec_add_uses(g, pid, uses.drop_last()).extends(spec_add_uses(g, pid, uses)));
        lemma_extends_trans(g, spec_add_uses(g, pid, uses.drop_last()), spec_add_uses(g, pid, uses));
    }
}

pub proof fn lemma_add_shapes_size(g: GraphView, fid: int, shapes: Seq<crate::ir::DirShapeView>)
    ensures
        g.extends(spec_add_shapes(g, fid, shapes)),
        spec_add_shapes(g, fid, shapes).nodes.len() == g.nodes.len() + shapes.len(),
    decreases shapes.len(),
{
    lemma_extends_refl(g);
    if shapes.len() > 0 {
        lemma_add_shapes_size(g, fid, shapes.drop_last());
        assert(spec_add_shapes(g, fid, shapes.drop_last()).extends(spec_add_shapes(g, fid, shapes)));
        lemma_extends_trans(
            g,
            spec_add_shapes(g, fid, shapes.drop_last()),
            spec_add_shapes(g, fid, shapes),
        );
    }
}

pub proof fn lemma_add_clauses_size(g: GraphView, bid: int, cs: Seq<crate::ir::DirClauseView>)
    ensures
        g.extends(spec_add_clauses(g, bid, cs)),
        spec_add_clauses(g, bid, cs).nodes.len() == g.nodes.len() + cs.len(),
    decreases cs.len(),
{
    lemma_extends_refl(g);
    if cs.len() > 0 {
        lemma_add_clauses_size(g, bid, cs.drop_last());
        assert(spec_add_clauses(g, bid, cs.drop_last()).extends(spec_add_clauses(g, bid, cs)));
        lemma_extends_trans(
            g,
            spec_add_clauses(g, bid, cs.drop_last()),
            spec_add_clauses(g, bid, cs),
        );
    }
}

pub proof fn lemma_add_proc_size(g: GraphView, fid: int, p: DirProcView)
    ensures
        g.extends(spec_add_proc(g, fid, p)),
        spec_add_proc(g, fid, p).nodes.len() == g.nodes.len() + 1 + p.uses.len() + p.body.len(),
{
    let g1 = g.push_node(NodeKindView::Proc { regime: p.regime, name: p.name }, Seq::empty());
    let g2 = g1.push_edge(EdgeKind::Contains, fid, g.nodes.len() as int);
    lemma_add_uses_size(g2, g.nodes.len() as int, p.uses);
    let g3 = spec_add_uses(g2, g.nodes.len() as int, p.uses);
    lemma_add_stmts_size(g3, g.nodes.len() as int, p.body);
    lemma_extends_refl(g);
    assert(g.extends(g2));
    lemma_extends_trans(g, g2, g3);
    lemma_extends_trans(g, g3, spec_add_proc(g, fid, p));
}

pub proof fn lemma_add_procs_size(g: GraphView, fid: int, ps: Seq<DirProcView>)
    ensures
        g.extends(spec_add_procs(g, fid, ps)),
        spec_add_procs(g, fid, ps).nodes.len() == g.nodes.len() + procs_node_count(ps),
    decreases ps.len(),
{
    lemma_extends_refl(g);
    if ps.len() > 0 {
        lemma_add_procs_size(g, fid, ps.drop_last());
        let g1 = spec_add_procs(g, fid, ps.drop_last());
        lemma_add_proc_size(g1, fid, ps.last());
        lemma_extends_trans(g, g1, spec_add_procs(g, fid, ps));
    }
}

pub proof fn lemma_add_bind_size(g: GraphView, fid: int, b: DirBindView)
    ensures
        g.extends(spec_add_bind(g, fid, b)),
        spec_add_bind(g, fid, b).nodes.len() == g.nodes.len() + 1 + b.contract.len(),
{
    let g1 = g.push_node(NodeKindView::Bind { source: b.source, target: b.target }, Seq::empty());
    let g2 = g1.push_edge(EdgeKind::Contains, fid, g.nodes.len() as int);
    lemma_add_clauses_size(g2, g.nodes.len() as int, b.contract);
    lemma_extends_refl(g);
    assert(g.extends(g2));
    lemma_extends_trans(g, g2, spec_add_bind(g, fid, b));
}

pub proof fn lemma_add_binds_size(g: GraphView, fid: int, bs: Seq<DirBindView>)
    ensures
        g.extends(spec_add_binds(g, fid, bs)),
        spec_add_binds(g, fid, bs).nodes.len() == g.nodes.len() + binds_node_count(bs),
    decreases bs.len(),
{
    lemma_extends_refl(g);
    if bs.len() > 0 {
        lemma_add_binds_size(g, fid, bs.drop_last());
        let g1 = spec_add_binds(g, fid, bs.drop_last());
        lemma_add_bind_size(g1, fid, bs.last());
        lemma_extends_trans(g, g1, spec_add_binds(g, fid, bs));
    }
}

pub proof fn lemma_add_forge_size(g: GraphView, parent: int, f: DirForgeView)
    ensures
        g.extends(spec_add_forge(g, parent, f)),
        spec_add_forge(g, parent, f).nodes.len() == g.nodes.len() + forge_node_count(f),
{
    let fid = g.nodes.len() as int;
    let g1 = g.push_node(NodeKindView::Forge { name: f.name }, Seq::empty());
    let g2 = g1.push_edge(EdgeKind::Contains, parent, fid);
    lemma_add_shapes_size(g2, fid, f.shapes);
    let g3 = spec_add_shapes(g2, fid, f.shapes);
    lemma_add_procs_size(g3, fid, f.procs);
    let g4 = spec_add_procs(g3, fid, f.procs);
    lemma_add_binds_size(g4, fid, f.binds);
    lemma_extends_refl(g);
    assert(g.extends(g2));
    lemma_extends_trans(g, g2, g3);
    lemma_extends_trans(g, g3, g4);
    lemma_extends_trans(g, g4, spec_add_forge(g, parent, f));
}

pub proof fn lemma_add_forges_size(g: GraphView, parent: int, fs: Seq<DirForgeView>)
    ensures
        g.extends(spec_add_forges(g, parent, fs)),
        spec_add_forges(g, parent, fs).nodes.len() == g.nodes.len() + forges_node_count(fs),
    decreases fs.len(),
{
    lemma_extends_refl(g);
    if fs.len() > 0 {
        lemma_add_forges_size(g, parent, fs.drop_last());
        let g1 = spec_add_forges(g, parent, fs.drop_last());
        lemma_add_forge_size(g1, parent, fs.last());
        lemma_extends_trans(g, g1, spec_add_forges(g, parent, fs));
    }
}

/// There is an edge of this kind with these endpoints somewhere in the graph.
pub open spec fn has_edge(g: GraphView, kind: EdgeKind, from: int, to: int) -> bool {
    exists|j: int| 0 <= j < g.edges.len() && #[trigger] is_edge(g, j, kind, from, to)
}

/// An edge, once present, survives any extension.
pub proof fn lemma_has_edge_extends(g: GraphView, g2: GraphView, kind: EdgeKind, from: int, to: int)
    requires
        has_edge(g, kind, from, to),
        g.extends(g2),
    ensures
        has_edge(g2, kind, from, to),
{
    let j = choose|j: int| 0 <= j < g.edges.len() && #[trigger] is_edge(g, j, kind, from, to);
    assert(g2.edges[j] == g.edges[j]);
    assert(is_edge(g2, j, kind, from, to));
}

/// One procedure laid out in the graph: its Proc node at `pid`, its
/// statement nodes as the run `base .. base + body.len()`, each contained in
/// the procedure, and consecutive statements joined by Next edges.
pub open spec fn proc_stmts_at(g: GraphView, pid: int, base: int, p: DirProcView) -> bool {
    &&& 0 <= pid < g.nodes.len()
    &&& 0 <= base
    &&& base + p.body.len() <= g.nodes.len()
    &&& g.nodes[pid].kind == (NodeKindView::Proc { regime: p.regime, name: p.name })
    &&& forall|k: int|
        0 <= k < p.body.len() ==> (#[trigger] g.nodes[base + k]).kind == (NodeKindView::Stmt {
            label: stmt_label(p.body[k]),
        })
    &&& forall|k: int|
        0 <= k < p.body.len() ==> #[trigger] has_edge(g, EdgeKind::Contains, pid, base + k)
    &&& forall|k: int|
        0 <= k < p.body.len() - 1 ==> #[trigger] has_edge(g, EdgeKind::Next, base + k, base + k + 1)
}

/// A procedure layout survives any extension.
pub proof fn lemma_proc_stmts_at_extends(
    g: GraphView,
    g2: GraphView,
    pid: int,
    base: int,
    p: DirProcView,
)
    requires
        proc_stmts_at(g, pid, base, p),
        g.extends(g2),
    ensures
        proc_stmts_at(g2, pid, base, p),
{
    assert(g2.nodes[pid] == g.nodes[pid]);
    assert forall|k: int| 0 <= k < p.body.len() implies (#[trigger] g2.nodes[base + k]).kind == (
    NodeKindView::Stmt { label: stmt_label(p.body[k]) }) by {
        assert(g2.nodes[base + k] == g.nodes[base + k]);
    };
    assert forall|k: int| 0 <= k < p.body.len() implies #[trigger] has_edge(
        g2,
        EdgeKind::Contains,
        pid,
        base + k,
    ) by {
        lemma_has_edge_extends(g, g2, EdgeKind::Contains, pid, base + k);
    };
    assert forall|k: int| 0 <= k < p.body.len() - 1 implies #[trigger] has_edge(
        g2,
        EdgeKind::Next,
        base + k,
        base + k + 1,
    ) by {
        lemma_has_edge_extends(g, g2, EdgeKind::Next, base + k, base + k + 1);
    };
}

/// Adding a statement body lays its nodes out as the run starting at the old
/// node count, with their Contains and Next edges.
pub proof fn lemma_add_stmts_at(g: GraphView, pid: int, body: Seq<DirStmtView>)
    requires
        0 <= pid < g.nodes.len(),
    ensures
        ({
            let r = spec_add_stmts(g, pid, body);
            let base = g.nodes.len() as int;
            &&& forall|k: int|
                0 <= k < body.len() ==> (#[trigger] r.nodes[base + k]).kind == (NodeKindView::Stmt {
                    label: stmt_label(body[k]),
                })
            &&& forall|k: int|
                0 <= k < body.len() ==> #[trigger] has_edge(r, EdgeKind::Contains, pid, base + k)
            &&& forall|k: int|
                0 <= k < body.len() - 1 ==> #[trigger] has_edge(
                    r,
                    EdgeKind::Next,
                    base + k,
                    base + k + 1,
                )
        }),
    decreases body.len(),
{
    let r = spec_add_stmts(g, pid, body);
    let base = g.nodes.len() as int;
    if body.len() > 0 {
        lemma_add_stmts_at(g, pid, body.drop_last());
        lemma_add_stmts_size(g, pid, body.drop_last());
        let g1 = spec_add_stmts(g, pid, body.drop_last());
        let kk = body.len() - 1;
        let sid = g1.next_node_id();
        assert(sid == base + kk);
        assert(g1.extends(r));
        assert forall|k: int| 0 <= k < body.len() implies (#[trigger] r.nodes[base + k]).kind == (
        NodeKindView::Stmt { label: stmt_label(body[k]) }) by {
            if k < kk {
                assert(body.drop_last()[k] == body[k]);
                assert(r.nodes[base + k] == g1.nodes[base + k]);
            } else {
                assert(body.last() == body[k]);
            }
        };
        assert forall|k: int| 0 <= k < body.len() implies #[trigger] has_edge(
            r,
            EdgeKind::Contains,
            pid,
            base + k,
        ) by {
            if k < kk {
                assert(has_edge(g1, EdgeKind::Contains, pid, base + k)) by {
                    assert(body.drop_last()[k] == body[k]);
                };
                lemma_has_edge_extends(g1, r, EdgeKind::Contains, pid, base + k);
            } else {
                let g2 = g1.push_node(
                    NodeKindView::Stmt { label: stmt_label(body.last()) },
                    seq![
                        crate::graph::AttrView {
                            key: "index"@,
                            value: crate::strutil::dec_str(kk),
                        },
                    ],
                );
                let g3 = g2.push_edge(EdgeKind::Contains, pid, sid);
                let j = g2.edges.len() as int;
                assert(is_edge(g3, j, EdgeKind::Contains, pid, sid));
                assert(has_edge(g3, EdgeKind::Contains, pid, sid));
                assert(g3.extends(r));
                lemma_has_edge_extends(g3, r, EdgeKind::Contains, pid, sid);
            }
        };
        assert forall|k: int| 0 <= k < body.len() - 1 implies #[trigger] has_edge(
            r,
            EdgeKind::Next,
            base + k,
            base + k + 1,
        ) by {
            if k < kk - 1 {
                assert(has_edge(g1, EdgeKind::Next, base + k, base + k + 1)) by {
                    assert(body.drop_last().len() == kk);
                };
                lemma_has_edge_extends(g1, r, EdgeKind::Next, base + k, base + k + 1);
            } else {
                let g2 = g1.push_node(
                    NodeKindView::Stmt { label: stmt_label(body.last()) },
                    seq![
                        crate::graph::AttrView {
                            key: "index"@,
                            value: crate::strutil::dec_str(kk),
                        },
                    ],
                );
                let g3 = g2.push_edge(EdgeKind::Contains, pid, sid);
                let g4 = g3.push_edge(EdgeKind::Next, sid - 1, sid);
                assert(kk > 0);
                assert(r == g4);
                let j = g3.edges.len() as int;
                assert(is_edge(g4, j, EdgeKind::Next, base + k, base + k + 1));
            }
        };
    }
}

/// Adding one procedure lays it out at known positions: the Proc node at the
/// old node count, the statement run just after the resource uses.
pub proof fn lemma_add_proc_at(g: GraphView, fid: int, p: DirProcView)
    ensures
        proc_stmts_at(
            spec_add_proc(g, fid, p),
            g.nodes.len() as int,
            (g.nodes.len() + 1 + p.uses.len()) as int,
            p,
        ),
{
    let pid = g.nodes.len() as int;
    let g1 = g.push_node(NodeKindView::Proc { regime: p.regime, name: p.name }, Seq::empty());
    let g2 = g1.push_edge(EdgeKind::Contains, fid, pid);
    lemma_add_uses_size(g2, pid, p.uses);
    let g3 = spec_add_uses(g2, pid, p.uses);
    let base = g3.nodes.len() as int;
    assert(base == (g.nodes.len() + 1 + p.uses.len()) as int);
    lemma_add_stmts_at(g3, pid, p.body);
    lemma_add_stmts_size(g3, pid, p.body);
    let g4 = spec_add_stmts(g3, pid, p.body);
    assert(g4 == spec_add_proc(g, fid, p));
    assert(g3.nodes[pid] == g1.nodes[pid]);
    assert(g4.nodes[pid] == g3.nodes[pid]);
    assert(g4.nodes[pid].kind == (NodeKindView::Proc { regime: p.regime, name: p.name }));
}

/// Every procedure of the list is laid out somewhere in the result.
pub proof fn lemma_add_procs_at(g: GraphView, fid: int, ps: Seq<DirProcView>, pi: int)
    requires
        0 <= pi < ps.len(),
    ensures
        exists|pid: int, base: int|
            #[trigger] proc_stmts_at(spec_add_procs(g, fid, ps), pid, base, ps[pi]),
    decreases ps.len(),
{
    let g1 = spec_add_procs(g, fid, ps.drop_last());
    let r = spec_add_procs(g, fid, ps);
    if pi == ps.len() - 1 {
        lemma_add_proc_at(g1, fid, ps.last());
        assert(proc_stmts_at(r, g1.nodes.len() as int, (g1.nodes.len() + 1 + ps[pi].uses.len()) as int, ps[pi]));
    } else {
        assert(ps.drop_last()[pi] == ps[pi]);
        lemma_add_procs_at(g, fid, ps.drop_last(), pi);
        let (pid, base) = choose|pid: int, base: int|
            #[trigger] proc_stmts_at(g1, pid, base, ps.drop_last()[pi]);
        lemma_add_proc_size(g1, fid, ps.last());
        lemma_proc_stmts_at_extends(g1, r, pid, base, ps[pi]);
    }
}

/// Every procedure of a forge is laid out somewhere in the forge's subtree.
pub proof fn lemma_add_forge_at(g: GraphView, parent: int, f: DirForgeView, pi: int)
    requires
        0 <= pi < f.procs.len(),
    ensures
        exists|pid: int, base: int|
            #[trigger] proc_stmts_at(spec_add_forge(g, parent, f), pid, base, f.procs[pi]),
{
    let fid = g.nodes.len() as int;
    let g1 = g.push_node(NodeKindView::Forge { name: f.name }, Seq::empty());
    let g2 = g1.push_edge(EdgeKind::Contains, parent, fid);
    let g3 = spec_add_shapes(g2, fid, f.shapes);
    lemma_add_procs_at(g3, fid, f.procs, pi);
    let g4 = spec_add_procs(g3, fid, f.procs);
    let (pid, base) = choose|pid: int, base: int|
        #[trigger] proc_stmts_at(g4, pid, base, f.procs[pi]);
    lemma_add_binds_size(g4, fid, f.binds);
    lemma_proc_stmts_at_extends(g4, spec_add_forge(g, parent, f), pid, base, f.procs[pi]);
}

pub proof fn lemma_add_forges_at(g: GraphView, parent: int, fs: Seq<DirForgeView>, fi: int, pi: int)
    requires
        0 <= fi < fs.len(),
        0 <= pi < fs[fi].procs.len(),
    ensures
        exists|pid: int, base: int|
            #[trigger] proc_stmts_at(spec_add_forges(g, parent, fs), pid, base, fs[fi].procs[pi]),
    decreases fs.len(),
{
    let g1 = spec_add_forges(g, parent, fs.drop_last());
    let r = spec_add_forges(g, parent, fs);
    if fi == fs.len() - 1 {
        lemma_add_forge_at(g1, parent, fs.last(), pi);
    } else {
        assert(fs.drop_last()[fi] == fs[fi]);
        lemma_add_forges_at(g, parent, fs.drop_last(), fi, pi);
        let (pid, base) = choose|pid: int, base: int|
            #[trigger] proc_stmts_at(g1, pid, base, fs.drop_last()[fi].procs[pi]);
        lemma_add_forge_size(g1, parent, fs.last());
        lemma_proc_stmts_at_extends(g1, r, pid, base, fs[fi].procs[pi]);
    }
}

/// Statement ordering: every procedure of the program tree is laid out in
/// the built graph as a run of Stmt nodes in body order, each contained in
/// its Proc node, with a Next edge joining each consecutive pair — so for a
/// body [s0, s1, s2] the graph holds Next edges s0→s1 and s1→s2.
pub proof fn lemma_statement_ordering(p: DirProgramView, fi: int, pi: int)
    requires
        0 <= fi < p.forges.len(),
        0 <= pi < p.forges[fi].procs.len(),
    ensures
        exists|pid: int, base: int|
            #[trigger] proc_stmts_at(spec_build(p), pid, base, p.forges[fi].procs[pi]),
{
    let g0 = GraphView::empty().push_node(NodeKindView::Program, Seq::empty());
    lemma_add_forges_at(g0, 0, p.forges, fi, pi);
    let (pid, base) = choose|pid: int, base: int|
        #[trigger] proc_stmts_at(spec_add_forges(g0, 0, p.forges), pid, base, p.forges[fi].procs[pi]);
    assert(spec_build(p) == spec_add_forges(g0, 0, p.forges));
    assert(proc_stmts_at(spec_build(p), pid, base, p.forges[fi].procs[pi]));
}

/// One Next edge in good standing: it joins a node to its immediate
/// successor, both are Stmt nodes, and both hang off one common parent by
/// Contains edges — a Next edge never crosses a procedure boundary.
pub open spec fn next_edge_well_placed(g: GraphView, j: int) -> bool {
    g.edges[j].kind == EdgeKind::Next ==> {
        let e = g.edges[j];
        &&& e.to == e.from + 1
        &&& 0 <= e.from
        &&& e.to < g.nodes.len()
        &&& g.nodes[e.from].kind is Stmt
        &&& g.nodes[e.to].kind is Stmt
        &&& exists|pid: int|
            #[trigger] has_edge(g, EdgeKind::Contains, pid, e.from) && has_edge(
                g,
                EdgeKind::Contains,
                pid,
                e.to,
            )
    }
}

pub open spec fn next_edges_well_placed(g: GraphView) -> bool {
    forall|j: int| 0 <= j < g.edges.len() ==> #[trigger] next_edge_well_placed(g, j)
}

/// Good standing survives an extension that adds no Next edge.
pub proof fn lemma_next_preserved(g: GraphView, g2: GraphView)
    requires
        next_edges_well_placed(g),
        g.extends(g2),
        forall|j: int|
            g.edges.len() <= j < g2.edges.len() ==> (#[trigger] g2.edges[j]).kind != EdgeKind::Next,
    ensures
        next_edges_well_placed(g2),
{
    assert forall|j: int| 0 <= j < g2.edges.len() implies #[trigger] next_edge_well_placed(
        g2,
        j,
    ) by {
        if j < g.edges.len() {
            assert(g2.edges[j] == g.edges[j]);
            assert(next_edge_well_placed(g, j));
            if g.edges[j].kind == EdgeKind::Next {
                let e = g.edges[j];
                assert(g2.nodes[e.from] == g.nodes[e.from]);
                assert(g2.nodes[e.to] == g.nodes[e.to]);
                let pid = choose|pid: int|
                    #[trigger] has_edge(g, EdgeKind::Contains, pid, e.from) && has_edge(
                        g,
                        EdgeKind::Contains,
                        pid,
                        e.to,
                    );
                lemma_has_edge_extends(g, g2, EdgeKind::Contains, pid, e.from);
                lemma_has_edge_extends(g, g2, EdgeKind::Contains, pid, e.to);
            }
        }
    };
}

/// A Next edge in good standing stays so under any extension, given the new
/// edges are themselves in good standing; here specialised to the one Next
/// edge the statement builder adds.
pub proof fn lemma_add_stmts_next_ok(g: GraphView, pid: int, body: Seq<DirStmtView>)
    requires
        next_edges_well_placed(g),
        0 <= pid < g.nodes.len(),
    ensures
        next_edges_well_placed(spec_add_stmts(g, pid, body)),
    decreases body.len(),
{
    if body.len() > 0 {
        lemma_add_stmts_next_ok(g, pid, body.drop_last());
        lemma_add_stmts_at(g, pid, body.drop_last());
        lemma_add_stmts_size(g, pid, body.drop_last());
        let g1 = spec_add_stmts(g, pid, body.drop_last());
        let base = g.nodes.len() as int;
        let kk = body.len() - 1;
        let sid = g1.next_node_id();
        let g2 = g1.push_node(
            NodeKindView::Stmt { label: stmt_label(body.last()) },
            seq![crate::graph::AttrView { key: "index"@, value: crate::strutil::dec_str(kk) }],
        );
        let g3 = g2.push_edge(EdgeKind::Contains, pid, sid);
        assert(g1.extends(g2));
        assert(g2.extends(g3));
        lemma_next_preserved(g1, g2);
        lemma_next_preserved(g2, g3);
        let r = spec_add_stmts(g, pid, body);
        if kk > 0 {
            let g4 = g3.push_edge(EdgeKind::Next, sid - 1, sid);
            assert(r == g4);
            assert forall|j: int| 0 <= j < g4.edges.len() implies #[trigger] next_edge_well_placed(
                g4,
                j,
            ) by {
                if j < g3.edges.len() {
                    assert(g4.edges[j] == g3.edges[j]);
                    assert(next_edge_well_placed(g3, j));
                    if g3.edges[j].kind == EdgeKind::Next {
                        let e = g3.edges[j];
                        let pid2 = choose|pid2: int|
                            #[trigger] has_edge(g3, EdgeKind::Contains, pid2, e.from) && has_edge(
                                g3,
                                EdgeKind::Contains,
                                pid2,
                                e.to,
                            );
                        assert(g3.extends(g4));
                        lemma_has_edge_extends(g3, g4, EdgeKind::Contains, pid2, e.from);
                        lemma_has_edge_extends(g3, g4, EdgeKind::Contains, pid2, e.to);
                    }
                } else {
                    let e = g4.edges[j];
                    assert(e.kind == EdgeKind::Next && e.from == sid - 1 && e.to == sid);
                    assert(g4.nodes[sid - 1].kind == (NodeKindView::Stmt {
                        label: stmt_label(body.drop_last()[kk - 1]),
                    })) by {
                        assert(g1.nodes[base + (kk - 1)].kind == (NodeKindView::Stmt {
                            label: stmt_label(body.drop_last()[kk - 1]),
                        }));
                        assert(sid - 1 == base + (kk - 1));
                        assert(g4.nodes[sid - 1] == g1.nodes[sid - 1]);
                    };
                    assert(g4.nodes[sid].kind is Stmt);
                    assert(has_edge(g1, EdgeKind::Contains, pid, sid - 1)) by {
                        assert(has_edge(g1, EdgeKind::Contains, pid, base + (kk - 1)));
                    };
                    assert(g1.extends(g4));
                    lemma_has_edge_extends(g1, g4, EdgeKind::Contains, pid, sid - 1);
                    assert(is_edge(g4, g2.edges.len() as int, EdgeKind::Contains, pid, sid));
                    assert(has_edge(g4, EdgeKind::Contains, pid, sid));
                    assert(has_edge(g4, EdgeKind::Contains, pid, e.from) && has_edge(
                        g4,
                        EdgeKind::Contains,
                        pid,
                        e.to,
                    ));
                }
            };
        } else {
            assert(r == g3);
        }
    }
}

pub proof fn lemma_add_uses_next_ok(g: GraphView, pid: int, uses: Seq<crate::ir::DirUsesView>)
    requires
        next_edges_well_placed(g),
    ensures
        next_edges_well_placed(spec_add_uses(g, pid, uses)),
    decreases uses.len(),
{
    if uses.len() > 0 {
        lemma_add_uses_next_ok(g, pid, uses.drop_last());
        let g1 = spec_add_uses(g, pid, uses.drop_last());
        assert(g1.extends(spec_add_uses(g, pid, uses)));
        lemma_next_preserved(g1, spec_add_uses(g, pid, uses));
    }
}

pub proof fn lemma_add_shapes_next_ok(g: GraphView, fid: int, shapes: Seq<crate::ir::DirShapeView>)
    requires
        next_edges_well_placed(g),
    ensures
        next_edges_well_placed(spec_add_shapes(g, fid, shapes)),
    decreases shapes.len(),
{
    if shapes.len() > 0 {
        lemma_add_shapes_next_ok(g, fid, shapes.drop_last());
        let g1 = spec_add_shapes(g, fid, shapes.drop_last());
        assert(g1.extends(spec_add_shapes(g, fid, shapes)));
        lemma_next_preserved(g1, spec_add_shapes(g, fid, shapes));
    }
}

pub proof fn lemma_add_clauses_next_ok(g: GraphView, bid: int, cs: Seq<crate::ir::DirClauseView>)
    requires
        next_edges_well_placed(g),
    ensures
        next_edges_well_placed(spec_add_clauses(g, bid, cs)),
    decreases cs.len(),
{
    if cs.len() > 0 {
        lemma_add_clauses_next_ok(g, bid, cs.drop_last());
        let g1 = spec_add_clauses(g, bid, cs.drop_last());
        assert(g1.extends(spec_add_clauses(g, bid, cs)));
        lemma_next_preserved(g1, spec_add_clauses(g, bid, cs));
    }
}

pub proof fn lemma_add_proc_next_ok(g: GraphView, fid: int, p: DirProcView)
    requires
        next_edges_well_placed(g),
    ensures
        next_edges_well_placed(spec_add_proc(g, fid, p)),
{
    let pid = g.nodes.len() as int;
    let g1 = g.push_node(NodeKindView::Proc { regime: p.regime, name: p.name }, Seq::empty());
    let g2 = g1.push_edge(EdgeKind::Contains, fid, pid);
    assert(g.extends(g2));
    lemma_next_preserved(g, g2);
    lemma_add_uses_next_ok(g2, pid, p.uses);
    let g3 = spec_add_uses(g2, pid, p.uses);
    lemma_add_uses_size(g2, pid, p.uses);
    lemma_add_stmts_next_ok(g3, pid, p.body);
}

pub proof fn lemma_add_procs_next_ok(g: GraphView, fid: int, ps: Seq<DirProcView>)
    requires
        next_edges_well_placed(g),
    ensures
        next_edges_well_placed(spec_add_procs(g, fid, ps)),
    decreases ps.len(),
{
    if ps.len() > 0 {
        lemma_add_procs_next_ok(g, fid, ps.drop_last());
        lemma_add_proc_next_ok(spec_add_procs(g, fid, ps.drop_last()), fid, ps.last());
    }
}

pub proof fn lemma_add_bind_next_ok(g: GraphView, fid: int, b: DirBindView)
    requires
        next_edges_well_placed(g),
    ensures
        next_edges_well_placed(spec_add_bind(g, fid, b)),
{
    let bid = g.nodes.len() as int;
    let g1 = g.push_node(NodeKindView::Bind { source: b.source, target: b.target }, Seq::empty());
    let g2 = g1.push_edge(EdgeKind::Contains, fid, bid);
    assert(g.extends(g2));
    lemma_next_preserved(g, g2);
    lemma_add_clauses_next_ok(g2, bid, b.contract);
}

pub proof fn lemma_add_binds_next_ok(g: GraphView, fid: int, bs: Seq<DirBindView>)
    requires
        next_edges_well_placed(g),
    ensures
        next_edges_well_placed(spec_add_binds(g, fid, bs)),
    decreases bs.len(),
{
    if bs.len() > 0 {
        lemma_add_binds_next_ok(g, fid, bs.drop_last());
        lemma_add_bind_next_ok(spec_add_binds(g, fid, bs.drop_last()), fid, bs.last());
    }
}

pub proof fn lemma_add_forge_next_ok(g: GraphView, parent: int, f: DirForgeView)
    requires
        next_edges_well_placed(g),
    ensures
        next_edges_well_placed(spec_add_forge(g, parent, f)),
{
    let fid = g.nodes.len() as int;
    let g1 = g.push_node(NodeKindView::Forge { name: f.name }, Seq::empty());
    let g2 = g1.push_edge(EdgeKind::Contains, parent, fid);
    assert(g.extends(g2));
    lemma_next_preserved(g, g2);
    lemma_add_shapes_next_ok(g2, fid, f.shapes);
    lemma_add_procs_next_ok(spec_add_shapes(g2, fid, f.shapes), fid, f.procs);
    lemma_add_binds_next_ok(
        spec_add_procs(spec_add_shapes(g2, fid, f.shapes), fid, f.procs),
        fid,
        f.binds,
    );
}

pub proof fn lemma_add_forges_next_ok(g: GraphView, parent: int, fs: Seq<DirForgeView>)
    requires
        next_edges_well_placed(g),
    ensures
        next_edges_well_placed(spec_add_forges(g, parent, fs)),
    decreases fs.len(),
{
    if fs.len() > 0 {
        lemma_add_forges_next_ok(g, parent, fs.drop_last());
        lemma_add_forge_next_ok(spec_add_forges(g, parent, fs.drop_last()), parent, fs.last());
    }
}

/// No Next edge of a built graph crosses a procedure boundary: every Next
/// edge joins a Stmt node to the Stmt node at the very next id, and both
/// hang off one common parent node.
pub proof fn lemma_build_next_edges_well_placed(p: DirProgramView)
    ensures
        next_edges_well_placed(spec_build(p)),
{
    let g0 = GraphView::empty().push_node(NodeKindView::Program, Seq::empty());
    assert(next_edges_well_placed(g0));
    lemma_add_forges_next_ok(g0, 0, p.forges);
}

/// How many Contains edges leave the node with the given id.
pub open spec fn count_contains_from(edges: Seq<crate::graph::EdgeView>, from: int) -> int
    decreases edges.len(),
{
    if edges.len() == 0 {
        0
    } else {
        count_contains_from(edges.drop_last(), from) + if edges.last().kind == EdgeKind::Contains
            && edges.last().from == from {
            1int
        } else {
            0int
        }
    }
}

/// Every edge leaves an existing node.
pub open spec fn edges_from_bounded(g: GraphView) -> bool {
    forall|j: int| 0 <= j < g.edges.len() ==> 0 <= (#[trigger] g.edges[j]).from < g.nodes.len()
}

/// No Contains edge can leave a node that does not exist yet.
pub proof fn lemma_count_zero_beyond(g: GraphView, q: int)
    requires
        edges_from_bounded(g),
        q >= g.nodes.len(),
    ensures
        count_contains_from(g.edges, q) == 0,
{
    lemma_count_zero_rec(g.edges, q, g.nodes.len() as int);
}

proof fn lemma_count_zero_rec(edges: Seq<crate::graph::EdgeView>, q: int, bound: int)
    requires
        q >= bound,
        forall|j: int| 0 <= j < edges.len() ==> (#[trigger] edges[j]).from < bound,
    ensures
        count_contains_from(edges, q) == 0,
    decreases edges.len(),
{
    if edges.len() > 0 {
        assert forall|j: int| 0 <= j < edges.drop_last().len() implies (
        #[trigger] edges.drop_last()[j]).from < bound by {
            assert(edges.drop_last()[j] == edges[j]);
        };
        lemma_count_zero_rec(edges.drop_last(), q, bound);
    }
}

pub proof fn lemma_count_stmts(g: GraphView, pid: int, body: Seq<DirStmtView>, q: int)
    ensures
        count_contains_from(spec_add_stmts(g, pid, body).edges, q) == count_contains_from(
            g.edges,
            q,
        ) + if q == pid {
            body.len() as int
        } else {
            0int
        },
    decreases body.len(),
{
    if body.len() > 0 {
        lemma_count_stmts(g, pid, body.drop_last(), q);
        let g1 = spec_add_stmts(g, pid, body.drop_last());
        let r = spec_add_stmts(g, pid, body);
        let kk = body.len() - 1;
        let sid = g1.next_node_id();
        let g2 = g1.push_node(
            NodeKindView::Stmt { label: stmt_label(body.last()) },
            seq![crate::graph::AttrView { key: "index"@, value: crate::strutil::dec_str(kk) }],
        );
        let g3 = g2.push_edge(EdgeKind::Contains, pid, sid);
        assert(g3.edges.drop_last() =~= g2.edges);
        assert(count_contains_from(g3.edges, q) == count_contains_from(g2.edges, q) + if q == pid {
            1int
        } else {
            0int
        });
        if kk > 0 {
            let g4 = g3.push_edge(EdgeKind::Next, sid - 1, sid);
            assert(g4.edges.drop_last() =~= g3.edges);
            assert(count_contains_from(g4.edges, q) == count_contains_from(g3.edges, q));
        }
    }
}

pub proof fn lemma_count_uses(g: GraphView, pid: int, uses: Seq<crate::ir::DirUsesView>, q: int)
    ensures
        count_contains_from(spec_add_uses(g, pid, uses).edges, q) == count_contains_from(
            g.edges,
            q,
        ),
    decreases uses.len(),
{
    if uses.len() > 0 {
        lemma_count_uses(g, pid, uses.drop_last(), q);
        let g1 = spec_add_uses(g, pid, uses.drop_last());
        let g2 = g1.push_node(NodeKindView::Uses { resource: uses.last().resource }, Seq::empty());
        let g3 = spec_add_uses(g, pid, uses);
        assert(g3.edges.drop_last() =~= g2.edges);
        assert(count_contains_from(g3.edges, q) == count_contains_from(g2.edges, q));
    }
}

pub proof fn lemma_count_shapes(g: GraphView, fid: int, shapes: Seq<crate::ir::DirShapeView>, q: int)
    ensures
        count_contains_from(spec_add_shapes(g, fid, shapes).edges, q) == count_contains_from(
            g.edges,
            q,
        ) + if q == fid {
            shapes.len() as int
        } else {
            0int
        },
    decreases shapes.len(),
{
    if shapes.len() > 0 {
        lemma_count_shapes(g, fid, shapes.drop_last(), q);
        let g1 = spec_add_shapes(g, fid, shapes.drop_last());
        let g2 = g1.push_node(NodeKindView::Shape { name: shapes.last().name }, Seq::empty());
        let g3 = spec_add_shapes(g, fid, shapes);
        assert(g3.edges.drop_last() =~= g2.edges);
    }
}

pub proof fn lemma_count_clauses(g: GraphView, bid: int, cs: Seq<crate::ir::DirClauseView>, q: int)
    ensures
        count_contains_from(spec_add_clauses(g, bid, cs).edges, q) == count_contains_from(
            g.edges,
            q,
        ),
    decreases cs.len(),
{
    if cs.len() > 0 {
        lemma_count_clauses(g, bid, cs.drop_last(), q);
        let g1 = spec_add_clauses(g, bid, cs.drop_last());
        let c = cs.last();
        let g2 = g1.push_node(
            NodeKindView::Clause { key: c.key, op: c.op, value: c.value },
            Seq::empty(),
        );
        let g3 = spec_add_clauses(g, bid, cs);
        assert(g3.edges.drop_last() =~= g2.edges);
        assert(count_contains_from(g3.edges, q) == count_contains_from(g2.edges, q));
    }
}

pub proof fn lemma_count_proc(g: GraphView, fid: int, p: DirProcView, q: int)
    requires
        q < g.nodes.len(),
    ensures
        count_contains_from(spec_add_proc(g, fid, p).edges, q) == count_contains_from(
            g.edges,
            q,
        ) + if q == fid {
            1int
        } else {
            0int
        },
{
    let pid = g.nodes.len() as int;
    let g1 = g.push_node(NodeKindView::Proc { regime: p.regime, name: p.name }, Seq::empty());
    let g2 = g1.push_edge(EdgeKind::Contains, fid, pid);
    assert(g2.edges.drop_last() =~= g1.edges);
    lemma_count_uses(g2, pid, p.uses, q);
    let g3 = spec_add_uses(g2, pid, p.uses);
    lemma_count_stmts(g3, pid, p.body, q);
    assert(q != pid);
}

pub proof fn lemma_count_procs(g: GraphView, fid: int, ps: Seq<DirProcView>, q: int)
    requires
        q < g.nodes.len(),
    ensures
        count_contains_from(spec_add_procs(g, fid, ps).edges, q) == count_contains_from(
            g.edges,
            q,
        ) + if q == fid {
            ps.len() as int
        } else {
            0int
        },
    decreases ps.len(),
{
    if ps.len() > 0 {
        lemma_count_procs(g, fid, ps.drop_last(), q);
        let g1 = spec_add_procs(g, fid, ps.drop_last());
        lemma_add_procs_size(g, fid, ps.drop_last());
        lemma_procs_node_count_nonneg(ps.drop_last());
        lemma_count_proc(g1, fid, ps.last(), q);
    }
}

pub proof fn lemma_procs_node_count_nonneg(ps: Seq<DirProcView>)
    ensures
        procs_node_count(ps) >= 0,
    decreases ps.len(),
{
    if ps.len() > 0 {
        lemma_procs_node_count_nonneg(ps.drop_last());
    }
}

pub proof fn lemma_binds_node_count_nonneg(bs: Seq<DirBindView>)
    ensures
        binds_node_count(bs) >= 0,
    decreases bs.len(),
{
    if bs.len() > 0 {
        lemma_binds_node_count_nonneg(bs.drop_last());
    }
}

pub proof fn lemma_forges_node_count_nonneg(fs: Seq<DirForgeView>)
    ensures
        forges_node_count(fs) >= 0,
    decreases fs.len(),
{
    if fs.len() > 0 {
        lemma_forges_node_count_nonneg(fs.drop_last());
        lemma_procs_node_count_nonneg(fs.last().procs);
        lemma_binds_node_count_nonneg(fs.last().binds);
    }
}

pub proof fn lemma_count_bind(g: GraphView, fid: int, b: DirBindView, q: int)
    requires
        q < g.nodes.len(),
    ensures
        count_contains_from(spec_add_bind(g, fid, b).edges, q) == count_contains_from(
            g.edges,
            q,
        ) + if q == fid {
            1int
        } else {
            0int
        },
{
    let bid = g.nodes.len() as int;
    let g1 = g.push_node(NodeKindView::Bind { source: b.source, target: b.target }, Seq::empty());
    let g2 = g1.push_edge(EdgeKind::Contains, fid, bid);
    assert(g2.edges.drop_last() =~= g1.edges);
    lemma_count_clauses(g2, bid, b.contract, q);
}

pub proof fn lemma_count_binds(g: GraphView, fid: int, bs: Seq<DirBindView>, q: int)
    requires
        q < g.nodes.len(),
    ensures
        count_contains_from(spec_add_binds(g, fid, bs).edges, q) == count_contains_from(
            g.edges,
            q,
        ) + if q == fid {
            bs.len() as int
        } else {
            0int
        },
    decreases bs.len(),
{
    if bs.len() > 0 {
        lemma_count_binds(g, fid, bs.drop_last(), q);
        let g1 = spec_add_binds(g, fid, bs.drop_last());
        lemma_add_binds_size(g, fid, bs.drop_last());
        lemma_binds_node_count_nonneg(bs.drop_last());
        lemma_count_bind(g1, fid, bs.last(), q);
    }
}

pub proof fn lemma_count_forge(g: GraphView, parent: int, f: DirForgeView, q: int)
    requires
        q <= g.nodes.len(),
    ensures
        count_contains_from(spec_add_forge(g, parent, f).edges, q) == count_contains_from(
            g.edges,
            q,
        ) + (if q == parent {
            1int
        } else {
            0int
        }) + (if q == g.nodes.len() as int {
            (f.shapes.len() + f.procs.len() + f.binds.len()) as int
        } else {
            0int
        }),
{
    let fid = g.nodes.len() as int;
    let g1 = g.push_node(NodeKindView::Forge { name: f.name }, Seq::empty());
    let g2 = g1.push_edge(EdgeKind::Contains, parent, fid);
    assert(g2.edges.drop_last() =~= g1.edges);
    lemma_count_shapes(g2, fid, f.shapes, q);
    let g3 = spec_add_shapes(g2, fid, f.shapes);
    lemma_add_shapes_size(g2, fid, f.shapes);
    lemma_count_procs(g3, fid, f.procs, q);
    let g4 = spec_add_procs(g3, fid, f.procs);
    lemma_add_procs_size(g3, fid, f.procs);
    lemma_procs_node_count_nonneg(f.procs);
    lemma_count_binds(g4, fid, f.binds, q);
}

pub proof fn lemma_count_forges_parent(g: GraphView, parent: int, fs: Seq<DirForgeView>, q: int)
    requires
        q < g.nodes.len(),
    ensures
        count_contains_from(spec_add_forges(g, parent, fs).edges, q) == count_contains_from(
            g.edges,
            q,
        ) + if q == parent {
            fs.len() as int
        } else {
            0int
        },
    decreases fs.len(),
{
    if fs.len() > 0 {
        lemma_count_forges_parent(g, parent, fs.drop_last(), q);
        let g1 = spec_add_forges(g, parent, fs.drop_last());
        lemma_add_forges_size(g, parent, fs.drop_last());
        lemma_forges_node_count_nonneg(fs.drop_last());
        lemma_count_forge(g1, parent, fs.last(), q);
        assert(q != g1.nodes.len() as int);
    }
}

/// Containment shape, program half: the Program node has exactly one
/// Contains edge per top-level forge.
pub proof fn lemma_program_contains_count(p: DirProgramView)
    ensures
        count_contains_from(spec_build(p).edges, 0) == p.forges.len(),
{
    let g0 = GraphView::empty().push_node(NodeKindView::Program, Seq::empty());
    assert(count_contains_from(g0.edges, 0) == 0);
    lemma_count_forges_parent(g0, 0, p.forges, 0);
}

pub proof fn lemma_bounded_stmts(g: GraphView, pid: int, body: Seq<DirStmtView>)
    requires
        edges_from_bounded(g),
        0 <= pid < g.nodes.len(),
    ensures
        edges_from_bounded(spec_add_stmts(g, pid, body)),
    decreases body.len(),
{
    if body.len() > 0 {
        lemma_bounded_stmts(g, pid, body.drop_last());
        lemma_add_stmts_size(g, pid, body.drop_last());
        let g1 = spec_add_stmts(g, pid, body.drop_last());
        let r = spec_add_stmts(g, pid, body);
        assert forall|j: int| 0 <= j < r.edges.len() implies 0 <= (#[trigger] r.edges[j]).from
            < r.nodes.len() by {
            if j < g1.edges.len() {
                assert(r.edges[j] == g1.edges[j]);
            }
        };
    }
}

pub proof fn lemma_bounded_uses(g: GraphView, pid: int, uses: Seq<crate::ir::DirUsesView>)
    requires
        edges_from_bounded(g),
        0 <= pid < g.nodes.len(),
    ensures
        edges_from_bounded(spec_add_uses(g, pid, uses)),
    decreases uses.len(),
{
    if uses.len() > 0 {
        lemma_bounded_uses(g, pid, uses.drop_last());
        lemma_add_uses_size(g, pid, uses.drop_last());
        let g1 = spec_add_uses(g, pid, uses.drop_last());
        let r = spec_add_uses(g, pid, uses);
        assert forall|j: int| 0 <= j < r.edges.len() implies 0 <= (#[trigger] r.edges[j]).from
            < r.nodes.len() by {
            if j < g1.edges.len() {
                assert(r.edges[j] == g1.edges[j]);
            }
        };
    }
}

pub proof fn lemma_bounded_shapes(g: GraphView, fid: int, shapes: Seq<crate::ir::DirShapeView>)
    requires
        edges_from_bounded(g),
        0 <= fid < g.nodes.len(),
    ensures
        edges_from_bounded(spec_add_shapes(g, fid, shapes)),
    decreases shapes.len(),
{
    if shapes.len() > 0 {
        lemma_bounded_shapes(g, fid, shapes.drop_last());
        lemma_add_shapes_size(g, fid, shapes.drop_last());
        let g1 = spec_add_shapes(g, fid, shapes.drop_last());
        let r = spec_add_shapes(g, fid, shapes);
        assert forall|j: int| 0 <= j < r.edges.len() implies 0 <= (#[trigger] r.edges[j]).from
            < r.nodes.len() by {
            if j < g1.edges.len() {
                assert(r.edges[j] == g1.edges[j]);
            }
        };
    }
}

pub proof fn lemma_bounded_clauses(g: GraphView, bid: int, cs: Seq<crate::ir::DirClauseView>)
    requires
        edges_from_bounded(g),
        0 <= bid < g.nodes.len(),
    ensures
        edges_from_bounded(spec_add_clauses(g, bid, cs)),
    decreases cs.len(),
{
    if cs.len() > 0 {
        lemma_bounded_clauses(g, bid, cs.drop_last());
        lemma_add_clauses_size(g, bid, cs.drop_last());
        let g1 = spec_add_clauses(g, bid, cs.drop_last());
        let r = spec_add_clauses(g, bid, cs);
        assert forall|j: int| 0 <= j < r.edges.len() implies 0 <= (#[trigger] r.edges[j]).from
            < r.nodes.len() by {
            if j < g1.edges.len() {
                assert(r.edges[j] == g1.edges[j]);
            }
        };
    }
}

pub proof fn lemma_bounded_proc(g: GraphView, fid: int, p: DirProcView)
    requires
        edges_from_bounded(g),
        0 <= fid < g.nodes.len(),
    ensures
        edges_from_bounded(spec_add_proc(g, fid, p)),
{
    let pid = g.nodes.len() as int;
    let g1 = g.push_node(NodeKindView::Proc { regime: p.regime, name: p.name }, Seq::empty());
    let g2 = g1.push_edge(EdgeKind::Contains, fid, pid);
    assert(edges_from_bounded(g2)) by {
        assert forall|j: int| 0 <= j < g2.edges.len() implies 0 <= (#[trigger] g2.edges[j]).from
            < g2.nodes.len() by {
            if j < g.edges.len() {
                assert(g2.edges[j] == g.edges[j]);
            }
        };
    };
    lemma_bounded_uses(g2, pid, p.uses);
    lemma_add_uses_size(g2, pid, p.uses);
    lemma_bounded_stmts(spec_add_uses(g2, pid, p.uses), pid, p.body);
}

pub proof fn lemma_bounded_procs(g: GraphView, fid: int, ps: Seq<DirProcView>)
    requires
        edges_from_bounded(g),
        0 <= fid < g.nodes.len(),
    ensures
        edges_from_bounded(spec_add_procs(g, fid, ps)),
    decreases ps.len(),
{
    if ps.len() > 0 {
        lemma_bounded_procs(g, fid, ps.drop_last());
        lemma_add_procs_size(g, fid, ps.drop_last());
        lemma_procs_node_count_nonneg(ps.drop_last());
        lemma_bounded_proc(spec_add_procs(g, fid, ps.drop_last()), fid, ps.last());
    }
}

pub proof fn lemma_bounded_bind(g: GraphView, fid: int, b: DirBindView)
    requires
        edges_from_bounded(g),
        0 <= fid < g.nodes.len(),
    ensures
        edges_from_bounded(spec_add_bind(g, fid, b)),
{
    let bid = g.nodes.len() as int;
    let g1 = g.push_node(NodeKindView::Bind { source: b.source, target: b.target }, Seq::empty());
    let g2 = g1.push_edge(EdgeKind::Contains, fid, bid);
    assert(edges_from_bounded(g2)) by {
        assert forall|j: int| 0 <= j < g2.edges.len() implies 0 <= (#[trigger] g2.edges[j]).from
            < g2.nodes.len() by {
            if j < g.edges.len() {
                assert(g2.edges[j] == g.edges[j]);
            }
        };
    };
    lemma_bounded_clauses(g2, bid, b.contract);
}

pub proof fn lemma_bounded_binds(g: GraphView, fid: int, bs: Seq<DirBindView>)
    requires
        edges_from_bounded(g),
        0 <= fid < g.nodes.len(),
    ensures
        edges_from_bounded(spec_add_binds(g, fid, bs)),
    decreases bs.len(),
{
    if bs.len() > 0 {
        lemma_bounded_binds(g, fid, bs.drop_last());
        lemma_add_binds_size(g, fid, bs.drop_last());
        lemma_binds_node_count_nonneg(bs.drop_last());
        lemma_bounded_bind(spec_add_binds(g, fid, bs.drop_last()), fid, bs.last());
    }
}

pub proof fn lemma_bounded_forge(g: GraphView, parent: int, f: DirForgeView)
    requires
        edges_from_bounded(g),
        0 <= parent < g.nodes.len(),
    ensures
        edges_from_bounded(spec_add_forge(g, parent, f)),
{
    let fid = g.nodes.len() as int;
    let g1 = g.push_node(NodeKindView::Forge { name: f.name }, Seq::empty());
    let g2 = g1.push_edge(EdgeKind::Contains, parent, fid);
    assert(edges_from_bounded(g2)) by {
        assert forall|j: int| 0 <= j < g2.edges.len() implies 0 <= (#[trigger] g2.edges[j]).from
            < g2.nodes.len() by {
            if j < g.edges.len() {
                assert(g2.edges[j] == g.edges[j]);
            }
        };
    };
    lemma_bounded_shapes(g2, fid, f.shapes);
    lemma_add_shapes_size(g2, fid, f.shapes);
    let g3 = spec_add_shapes(g2, fid, f.shapes);
    lemma_bounded_procs(g3, fid, f.procs);
    lemma_add_procs_size(g3, fid, f.procs);
    lemma_procs_node_count_nonneg(f.procs);
    lemma_bounded_binds(spec_add_procs(g3, fid, f.procs), fid, f.binds);
}

pub proof fn lemma_bounded_forges(g: GraphView, parent: int, fs: Seq<DirForgeView>)
    requires
        edges_from_bounded(g),
        0 <= parent < g.nodes.len(),
    ensures
        edges_from_bounded(spec_add_forges(g, parent, fs)),
    decreases fs.len(),
{
    if fs.len() > 0 {
        lemma_bounded_forges(g, parent, fs.drop_last());
        lemma_add_forges_size(g, parent, fs.drop_last());
        lemma_forges_node_count_nonneg(fs.drop_last());
        lemma_bounded_forge(spec_add_forges(g, parent, fs.drop_last()), parent, fs.last());
    }
}

pub proof fn lemma_forges_count_mono(fs: Seq<DirForgeView>, i: int, j: int)
    requires
        0 <= i <= j <= fs.len(),
    ensures
        forges_node_count(fs.take(i)) <= forges_node_count(fs.take(j)),
    decreases j - i,
{
    if i < j {
        lemma_forges_count_mono(fs, i, j - 1);
        assert(fs.take(j).drop_last() =~= fs.take(j - 1));
        assert(fs.take(j).last() == fs[j - 1]);
        lemma_procs_node_count_nonneg(fs[j - 1].procs);
        lemma_binds_node_count_nonneg(fs[j - 1].binds);
    }
}

/// Containment shape, forge half: each Forge node of the built graph stands
/// at a known position, is contained in the Program node, and has exactly
/// one Contains edge per shape, procedure and bind it declares.
pub proof fn lemma_forges_forge_count(g: GraphView, parent: int, fs: Seq<DirForgeView>, fi: int)
    requires
        edges_from_bounded(g),
        0 <= parent < g.nodes.len(),
        0 <= fi < fs.len(),
    ensures
        ({
            let r = spec_add_forges(g, parent, fs);
            let fid = g.nodes.len() + forges_node_count(fs.take(fi));
            &&& 0 <= fid < r.nodes.len()
            &&& r.nodes[fid as int].kind == (NodeKindView::Forge { name: fs[fi].name })
            &&& has_edge(r, EdgeKind::Contains, parent, fid as int)
            &&& count_contains_from(r.edges, fid as int) == fs[fi].shapes.len()
                + fs[fi].procs.len() + fs[fi].binds.len()
        }),
    decreases fs.len(),
{
    let r = spec_add_forges(g, parent, fs);
    let g1 = spec_add_forges(g, parent, fs.drop_last());
    lemma_add_forges_size(g, parent, fs.drop_last());
    lemma_forges_node_count_nonneg(fs.take(fi));
    let fid = g.nodes.len() + forges_node_count(fs.take(fi));
    if fi == fs.len() - 1 {
        assert(fs.drop_last() =~= fs.take(fi));
        assert(fid == g1.nodes.len() as int);
        lemma_bounded_forges(g, parent, fs.drop_last());
        let f = fs.last();
        let ga = g1.push_node(NodeKindView::Forge { name: f.name }, Seq::empty());
        let gb = ga.push_edge(EdgeKind::Contains, parent, fid as int);
        lemma_count_zero_beyond(g1, fid as int);
        assert(gb.edges.drop_last() =~= ga.edges);
        lemma_count_forge(g1, parent, f, fid as int);
        assert(count_contains_from(r.edges, fid as int) == f.shapes.len() + f.procs.len()
            + f.binds.len());
        assert(is_edge(gb, g1.edges.len() as int, EdgeKind::Contains, parent, fid as int));
        assert(has_edge(gb, EdgeKind::Contains, parent, fid as int));
        lemma_add_shapes_size(gb, fid as int, f.shapes);
        let gc = spec_add_shapes(gb, fid as int, f.shapes);
        lemma_add_procs_size(gc, fid as int, f.procs);
        let gd = spec_add_procs(gc, fid as int, f.procs);
        lemma_add_binds_size(gd, fid as int, f.binds);
        assert(gb.extends(gc));
        crate::graph::lemma_extends_trans(gb, gc, gd);
        crate::graph::lemma_extends_trans(gb, gd, r);
        lemma_has_edge_extends(gb, r, EdgeKind::Contains, parent, fid as int);
        assert(r.nodes[fid as int] == gb.nodes[fid as int]);
    } else {
        assert(fs.drop_last()[fi] == fs[fi]);
        assert(fs.drop_last().take(fi) =~= fs.take(fi));
        lemma_forges_forge_count(g, parent, fs.drop_last(), fi);
        assert(fid < g1.nodes.len()) by {
            lemma_forges_count_mono(fs, fi + 1, fs.len() - 1);
            assert(fs.take(fi + 1).drop_last() =~= fs.take(fi));
            assert(fs.take(fi + 1).last() == fs[fi]);
            lemma_procs_node_count_nonneg(fs[fi].procs);
            lemma_binds_node_count_nonneg(fs[fi].binds);
            assert(fs.drop_last() =~= fs.take(fs.len() - 1));
        };
        lemma_count_forge(g1, parent, fs.last(), fid as int);
        assert(count_contains_from(r.edges, fid as int) == count_contains_from(
            g1.edges,
            fid as int,
        ));
        lemma_add_forge_size(g1, parent, fs.last());
        assert(r.nodes[fid as int] == g1.nodes[fid as int]);
        lemma_has_edge_extends(g1, r, EdgeKind::Contains, parent, fid as int);
    }
}

/// Containment shape of a built graph: the Program node has exactly one
/// Contains edge per top-level forge (`lemma_program_contains_count`), and
/// each Forge node — contained in the Program node — has exactly one
/// Contains edge per shape, procedure and bind it declares.
pub proof fn lemma_forge_contains_count(p: DirProgramView, fi: int)
    requires
        0 <= fi < p.forges.len(),
    ensures
        ({
            let g = spec_build(p);
            let fid = 1 + forges_node_count(p.forges.take(fi));
            &&& 0 <= fid < g.nodes.len()
            &&& g.nodes[fid as int].kind == (NodeKindView::Forge { name: p.forges[fi].name })
            &&& has_edge(g, EdgeKind::Contains, 0, fid as int)
            &&& count_contains_from(g.edges, fid as int) == p.forges[fi].shapes.len()
                + p.forges[fi].procs.len() + p.forges[fi].binds.len()
        }),
{
    let g0 = GraphView::empty().push_node(NodeKindView::Program, Seq::empty());
    assert(edges_from_bounded(g0));
    lemma_forges_forge_count(g0, 0, p.forges, fi);
}

/// How many Next edges one statement body yields: one per consecutive pair.
pub open spec fn stmts_next_count(body: Seq<DirStmtView>) -> int {
    if body.len() == 0 {
        0
    } else {
        body.len() - 1
    }
}

pub open spec fn procs_next_count(ps: Seq<DirProcView>) -> int
    decreases ps.len(),
{
    if ps.len() == 0 {
        0
    } else {
        procs_next_count(ps.drop_last()) + stmts_next_count(ps.last().body)
    }
}

pub open spec fn forges_next_count(fs: Seq<DirForgeView>) -> int
    decreases fs.len(),
{
    if fs.len() == 0 {
        0
    } else {
        forges_next_count(fs.drop_last()) + procs_next_count(fs.last().procs)
    }
}

/// How many Next edges a graph holds.
pub open spec fn count_next_edges(edges: Seq<crate::graph::EdgeView>) -> int
    decreases edges.len(),
{
    if edges.len() == 0 {
        0
    } else {
        count_next_edges(edges.drop_last()) + if edges.last().kind == EdgeKind::Next {
            1int
        } else {
            0int
        }
    }
}

pub proof fn lemma_next_count_stmts(g: GraphView, pid: int, body: Seq<DirStmtView>)
    ensures
        count_next_edges(spec_add_stmts(g, pid, body).edges) == count_next_edges(g.edges)
            + stmts_next_count(body),
    decreases body.len(),
{
    if body.len() > 0 {
        lemma_next_count_stmts(g, pid, body.drop_last());
        let g1 = spec_add_stmts(g, pid, body.drop_last());
        let kk = body.len() - 1;
        let sid = g1.next_node_id();
        let g2 = g1.push_node(
            NodeKindView::Stmt { label: stmt_label(body.last()) },
            seq![crate::graph::AttrView { key: "index"@, value: crate::strutil::dec_str(kk) }],
        );
        let g3 = g2.push_edge(EdgeKind::Contains, pid, sid);
        assert(g3.edges.drop_last() =~= g2.edges);
        assert(count_next_edges(g3.edges) == count_next_edges(g2.edges));
        if kk > 0 {
            let g4 = g3.push_edge(EdgeKind::Next, sid - 1, sid);
            assert(g4.edges.drop_last() =~= g3.edges);
            assert(count_next_edges(g4.edges) == count_next_edges(g3.edges) + 1);
            assert(spec_add_stmts(g, pid, body) == g4);
        } else {
            assert(spec_add_stmts(g, pid, body) == g3);
        }
    }
}

pub proof fn lemma_next_count_uses(g: GraphView, pid: int, uses: Seq<crate::ir::DirUsesView>)
    ensures
        count_next_edges(spec_add_uses(g, pid, uses).edges) == count_next_edges(g.edges),
    decreases uses.len(),
{
    if uses.len() > 0 {
        lemma_next_count_uses(g, pid, uses.drop_last());
        let g1 = spec_add_uses(g, pid, uses.drop_last());
        let g2 = g1.push_node(NodeKindView::Uses { resource: uses.last().resource }, Seq::empty());
        assert(spec_add_uses(g, pid, uses).edges.drop_last() =~= g2.edges);
    }
}

pub proof fn lemma_next_count_shapes(g: GraphView, fid: int, shapes: Seq<crate::ir::DirShapeView>)
    ensures
        count_next_edges(spec_add_shapes(g, fid, shapes).edges) == count_next_edges(g.edges),
    decreases shapes.len(),
{
    if shapes.len() > 0 {
        lemma_next_count_shapes(g, fid, shapes.drop_last());
        let g1 = spec_add_shapes(g, fid, shapes.drop_last());
        let g2 = g1.push_node(NodeKindView::Shape { name: shapes.last().name }, Seq::empty());
        assert(spec_add_shapes(g, fid, shapes).edges.drop_last() =~= g2.edges);
    }
}

pub proof fn lemma_next_count_clauses(g: GraphView, bid: int, cs: Seq<crate::ir::DirClauseView>)
    ensures
        count_next_edges(spec_add_clauses(g, bid, cs).edges) == count_next_edges(g.edges),
    decreases cs.len(),
{
    if cs.len() > 0 {
        lemma_next_count_clauses(g, bid, cs.drop_last());
        let g1 = spec_add_clauses(g, bid, cs.drop_last());
        let c = cs.last();
        let g2 = g1.push_node(
            NodeKindView::Clause { key: c.key, op: c.op, value: c.value },
            Seq::empty(),
        );
        assert(spec_add_clauses(g, bid, cs).edges.drop_last() =~= g2.edges);
    }
}

pub proof fn lemma_next_count_proc(g: GraphView, fid: int, p: DirProcView)
    ensures
        count_next_edges(spec_add_proc(g, fid, p).edges) == count_next_edges(g.edges)
            + stmts_next_count(p.body),
{
    let pid = g.nodes.len() as int;
    let g1 = g.push_node(NodeKindView::Proc { regime: p.regime, name: p.name }, Seq::empty());
    let g2 = g1.push_edge(EdgeKind::Contains, fid, pid);
    assert(g2.edges.drop_last() =~= g1.edges);
    lemma_next_count_uses(g2, pid, p.uses);
    lemma_next_count_stmts(spec_add_uses(g2, pid, p.uses), pid, p.body);
}

pub proof fn lemma_next_count_procs(g: GraphView, fid: int, ps: Seq<DirProcView>)
    ensures
        count_next_edges(spec_add_procs(g, fid, ps).edges) == count_next_edges(g.edges)
            + procs_next_count(ps),
    decreases ps.len(),
{
    if ps.len() > 0 {
        lemma_next_count_procs(g, fid, ps.drop_last());
        lemma_next_count_proc(spec_add_procs(g, fid, ps.drop_last()), fid, ps.last());
    }
}

pub proof fn lemma_next_count_bind(g: GraphView, fid: int, b: DirBindView)
    ensures
        count_next_edges(spec_add_bind(g, fid, b).edges) == count_next_edges(g.edges),
{
    let bid = g.nodes.len() as int;
    let g1 = g.push_node(NodeKindView::Bind { source: b.source, target: b.target }, Seq::empty());
    let g2 = g1.push_edge(EdgeKind::Contains, fid, bid);
    assert(g2.edges.drop_last() =~= g1.edges);
    lemma_next_count_clauses(g2, bid, b.contract);
}

pub proof fn lemma_next_count_binds(g: GraphView, fid: int, bs: Seq<DirBindView>)
    ensures
        count_next_edges(spec_add_binds(g, fid, bs).edges) == count_next_edges(g.edges),
    decreases bs.len(),
{
    if bs.len() > 0 {
        lemma_next_count_binds(g, fid, bs.drop_last());
        lemma_next_count_bind(spec_add_binds(g, fid, bs.drop_last()), fid, bs.last());
    }
}

pub proof fn lemma_next_count_forge(g: GraphView, parent: int, f: DirForgeView)
    ensures
        count_next_edges(spec_add_forge(g, parent, f).edges) == count_next_edges(g.edges)
            + procs_next_count(f.procs),
{
    let fid = g.nodes.len() as int;
    let g1 = g.push_node(NodeKindView::Forge { name: f.name }, Seq::empty());
    let g2 = g1.push_edge(EdgeKind::Contains, parent, fid);
    assert(g2.edges.drop_last() =~= g1.edges);
    lemma_next_count_shapes(g2, fid, f.shapes);
    let g3 = spec_add_shapes(g2, fid, f.shapes);
    lemma_next_count_procs(g3, fid, f.procs);
    lemma_next_count_binds(spec_add_procs(g3, fid, f.procs), fid, f.binds);
}

pub proof fn lemma_next_count_forges(g: GraphView, parent: int, fs: Seq<DirForgeView>)
    ensures
        count_next_edges(spec_add_forges(g, parent, fs).edges) == count_next_edges(g.edges)
            + forges_next_count(fs),
    decreases fs.len(),
{
    if fs.len() > 0 {
        lemma_next_count_forges(g, parent, fs.drop_last());
        lemma_next_count_forge(spec_add_forges(g, parent, fs.drop_last()), parent, fs.last());
    }
}

/// The built graph holds exactly one Next edge per consecutive statement
/// pair of a procedure body: `lemma_statement_ordering` gives one such edge
/// for each pair, `lemma_build_next_edges_well_placed` shows every Next edge
/// joins such a pair, and this count — the sum over all procedures of one
/// less than the body length — leaves no room for a duplicate.
pub proof fn lemma_build_next_edge_count(p: DirProgramView)
    ensures
        count_next_edges(spec_build(p).edges) == forges_next_count(p.forges),
{
    let g0 = GraphView::empty().push_node(NodeKindView::Program, Seq::empty());
    assert(count_next_edges(g0.edges) == 0);
    lemma_next_count_forges(g0, 0, p.forges);
}

} // verus!
