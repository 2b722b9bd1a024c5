//! dustviz: a verified graph-construction and overlay-merging engine.
//!
//! A typed program tree is converted into a node/edge graph by a fixed
//! deterministic traversal; independent overlay passes then merge constraint
//! documents and trace event streams into the same graph, linking overlay
//! nodes back to the base nodes where the references resolve.  A focus pass
//! extracts the induced subgraph of a node-id set.

pub mod builder;
pub mod constraints;
pub mod dot;
pub mod focus;
pub mod graph;
pub mod ir;
pub mod json;
pub mod link_ir_refs;
pub mod overlay_constraints;
pub mod overlay_trace;
pub mod structure;
pub mod strutil;
pub mod trace;

pub use builder::build_dir_graph;
pub use constraints::{
    ConstraintAttr, ConstraintEdge, ConstraintEdgeKind, ConstraintId, ConstraintNode,
    ConstraintNodeKind, ConstraintsDocument, IdTable, IrRef,
};
pub use dot::{render_dot, render_dot_annotated};
pub use focus::focus_graph;
pub use graph::{Attr, Edge, EdgeId, EdgeKind, Graph, Node, NodeId, NodeIdSet, NodeKind};
pub use ir::{
    DirBind, DirClause, DirConstrain, DirEffect, DirField, DirForge, DirLet, DirLit, DirParam,
    DirProc, DirProgram, DirProve, DirReturn, DirShape, DirStmt, DirUses,
};
pub use json::{graph_to_json, EdgeJson, GraphJson, NodeJson};
pub use link_ir_refs::link_constraint_ir_refs;
pub use overlay_constraints::overlay_constraints;
pub use overlay_trace::{overlay_trace, TraceOverlay};
pub use trace::{TraceDocument, TraceEvent, TraceEventKind};
