//! The trace document model: an ordered stream of execution events, each
//! carrying its position in the stream and a closed variant describing what
//! was touched.

use vstd::prelude::*;

verus! {

#[derive(Debug, Clone, PartialEq, Eq)]
pub struct TraceDocument {
    pub events: Vec<TraceEvent>,
}

#[derive(Debug, Clone, PartialEq, Eq)]
pub struct TraceEvent {
    pub index: usize,
    pub kind: TraceEventKind,
}

#[derive(Debug, Clone, PartialEq, Eq)]
pub enum TraceEventKind {
    EnterProc { proc: String },
    StmtExec { proc: String, stmt_index: usize },
    ConstraintAdded { id: String },
    ConstraintFailed { id: String, reason: Option<String> },
}

#[verifier::ext_equal]
pub ghost enum TraceEventKindView {
    EnterProc { proc: Seq<char> },
    StmtExec { proc: Seq<char>, stmt_index: int },
    ConstraintAdded { id: Seq<char> },
    ConstraintFailed { id: Seq<char>, reason: Option<Seq<char>> },
}

#[verifier::ext_equal]
pub ghost struct TraceEventView {
    pub index: int,
    pub kind: TraceEventKindView,
}

#[verifier::ext_equal]
pub ghost struct TraceDocumentView {
    pub events: Seq<TraceEventView>,
}

impl View for TraceEventKind {
    type V = TraceEventKindView;

    open spec fn view(&self) -> TraceEventKindView {
        match self {
            TraceEventKind::EnterProc { proc } => TraceEventKindView::EnterProc { proc: proc@ },
            TraceEventKind::StmtExec { proc, stmt_index } => TraceEventKindView::StmtExec {
                proc: proc@,
                stmt_index: *stmt_index as int,
            },
            TraceEventKind::ConstraintAdded { id } => TraceEventKindView::ConstraintAdded {
                id: id@,
            },
            TraceEventKind::ConstraintFailed { id, reason } => TraceEventKindView::ConstraintFailed {
                id: id@,
                reason: match reason {
                    Some(r) => Some(r@),
                    None => None,
                },
            },
        }
    }
}

impl View for TraceEvent {
    type V = TraceEventView;

    open spec fn view(&self) -> TraceEventView {
        TraceEventView { index: self.index as int, kind: self.kind@ }
    }
}

impl View for TraceDocument {
    type V = TraceDocumentView;

    open spec fn view(&self) -> TraceDocumentView {
        TraceDocumentView { events: self.events@.map_values(|e: TraceEvent| e@) }
    }
}

} // verus!
