//! Lifecycle behaviour of holders and handles.

use view_tree::{
    AnyViewState, BasicState, BasicView, Cx, Host, Lifecycle, NodeSpan, TrackingScope, ViewCells,
    ViewHandle, ViewState,
};

fn fresh_cx(owner: usize) -> Cx {
    Cx::new(owner, TrackingScope::new(0))
}

#[test]
fn holder_walks_unbuilt_built_razed() {
    let mut host = Host::new();
    let mut cx = fresh_cx(0);
    let mut holder: ViewState<BasicState, BasicView> = ViewState::new(BasicView::Prim);
    assert!(matches!(holder.phase, Lifecycle::Unbuilt));
    assert!(holder.state.is_none());
    assert!(matches!(holder.nodes(), NodeSpan::Empty));

    // The first rebuild performs the implicit build and reports a change.
    let changed = holder.rebuild(&mut host, &mut cx);
    assert!(changed);
    assert!(matches!(holder.phase, Lifecycle::Built));
    assert!(holder.state.is_some());
    let span = holder.nodes();
    assert_eq!(span.count(), 1);
    // A view that statically owns one primitive reports a Single span.
    assert!(matches!(span, NodeSpan::Single(_)));
    let ids = span.to_vec();
    assert!(host.is_live(ids[0]));

    // A steady rebuild of a one-primitive view changes nothing.
    let changed = holder.rebuild(&mut host, &mut cx);
    assert!(!changed);
    assert!(matches!(holder.phase, Lifecycle::Built));

    // Razing destroys the primitive and is terminal.
    holder.raze(&mut host);
    assert!(matches!(holder.phase, Lifecycle::Razed));
    assert!(holder.state.is_none());
    assert!(!host.is_live(ids[0]));
    assert!(matches!(holder.nodes(), NodeSpan::Empty));
}

#[test]
fn razed_holder_is_inert() {
    let mut host = Host::new();
    let mut cx = fresh_cx(0);
    let mut holder: ViewState<BasicState, BasicView> = ViewState::new(BasicView::Prim);
    holder.rebuild(&mut host, &mut cx);
    holder.raze(&mut host);
    let ents_after_raze = host.ents.clone();

    // Further rebuilds and razes are guarded no-ops: nothing is destroyed
    // twice and nothing new appears.
    let changed = holder.rebuild(&mut host, &mut cx);
    assert!(!changed);
    assert!(matches!(holder.phase, Lifecycle::Razed));
    holder.raze(&mut host);
    assert!(matches!(holder.phase, Lifecycle::Razed));
    assert_eq!(host.ents, ents_after_raze);
    assert!(matches!(holder.nodes(), NodeSpan::Empty));
}

#[test]
fn razing_an_unbuilt_holder_is_a_no_op() {
    let mut host = Host::new();
    let mut holder: ViewState<BasicState, BasicView> = ViewState::new(BasicView::Blank);
    holder.raze(&mut host);
    assert!(matches!(holder.phase, Lifecycle::Unbuilt));
    assert_eq!(host.ents.len(), 0);
}

#[test]
fn empty_view_is_permanently_inert() {
    let mut host = Host::new();
    let mut cx = fresh_cx(0);
    let mut ev = view_tree::EmptyView;
    assert!(matches!(ev.nodes(), NodeSpan::Empty));
    assert!(!ev.rebuild(&mut host, &mut cx));
    ev.raze(&mut host);
    assert!(matches!(ev.nodes(), NodeSpan::Empty));
    assert_eq!(host.ents.len(), 0);
}

#[test]
fn default_handle_behaves_as_empty_view() {
    let mut cells = ViewCells::new();
    let mut host = Host::new();
    let mut cx = fresh_cx(0);
    let h = ViewHandle::default();
    assert!(matches!(h.nodes(&cells), NodeSpan::Empty));
    assert!(!h.rebuild(&mut cells, &mut host, &mut cx));
    h.raze(&mut cells, &mut host);
    assert!(matches!(h.nodes(&cells), NodeSpan::Empty));
    assert_eq!(host.ents.len(), 0);
}

#[test]
fn cloned_handle_shares_the_holder() {
    let mut cells = ViewCells::new();
    let mut host = Host::new();
    let mut cx = fresh_cx(0);
    let h = ViewHandle::new(BasicView::Prim, &mut cells);
    let h2 = h.clone();
    // Driving through one handle is visible through the other.
    assert!(h.rebuild(&mut cells, &mut host, &mut cx));
    let span = h2.nodes(&cells);
    assert_eq!(span.count(), 1);
    // Razing through the clone tears down the shared holder exactly once.
    h2.raze(&mut cells, &mut host);
    assert!(matches!(h.nodes(&cells), NodeSpan::Empty));
    assert!(!h.rebuild(&mut cells, &mut host, &mut cx));
}

#[test]
fn handle_rebuild_is_lazy_build_and_reports_first_change() {
    let mut cells = ViewCells::new();
    let mut host = Host::new();
    let mut cx = fresh_cx(0);
    let h = ViewHandle::new(BasicView::Blank, &mut cells);
    // Even a view with empty output reports a change on its first drive:
    // its holder went from unbuilt to built.
    assert!(h.rebuild(&mut cells, &mut host, &mut cx));
    // Thereafter nothing changes.
    assert!(!h.rebuild(&mut cells, &mut host, &mut cx));
}
