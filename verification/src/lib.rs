//! A retained-mode, reactive view-tree reconciliation engine.
//!
//! A view is a description of a piece of a tree whose nodes produce zero, one
//! or many display primitives in a host substrate. Each view keeps retained
//! state between drive cycles, so that a rebuild touches only what changed.
//! The crate provides the output-span model, the view contract and its
//! type-erased holder, shared handles, root anchors, and the driver that
//! performs the first build of newly installed roots.

mod span;
mod host;
mod tracking;
mod view;
mod basic;
mod cells;
mod driver;

pub use span::{
    aggregate_spans,
    concat_ids,
    eq_id_vecs,
    lemma_concat_ids_push,
    lemma_concat_ids_skips_empty,
    span_matches,
    NodeSpan,
};
pub use host::{EntityRec, Host};
pub use tracking::{Cx, TrackingScope};
pub use basic::{
    basic_arity,
    basic_wf,
    group_arity,
    kids_ids,
    state_ids,
    state_span,
    BasicState,
    BasicView,
};
pub use cells::{ViewCell, ViewCells, ViewHandle};
pub use driver::{anchors_own, anchors_target, create_views, RootAnchor, ViewRoot};
pub use view::{
    attach_effect,
    build_effect,
    ids_disjoint,
    ids_distinct,
    ids_has,
    kid_reconciled,
    lemma_attach_children_idempotent,
    lemma_ids_disjoint_sym,
    lemma_lifecycle_monotonic,
    lifecycle_rank,
    raze_effect,
    raze_target,
    rebuild_step,
    reconcile_effect,
    span_ok,
    AnyViewState,
    EmptyView,
    Lifecycle,
    UiView,
    ViewState,
};
