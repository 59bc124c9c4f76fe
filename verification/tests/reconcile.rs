//! Building, rebuilding, attaching and razing the built-in views.

use view_tree::{BasicView, Cx, Host, NodeSpan, TrackingScope, UiView};

fn fresh_cx(owner: usize) -> Cx {
    Cx::new(owner, TrackingScope::new(0))
}

#[test]
fn build_output_matches_declared_arity() {
    let mut host = Host::new();
    let owner = host.spawn();
    host.set_input(0, 3);
    let mut cx = fresh_cx(owner);

    let blank = BasicView::Blank;
    let st = blank.build(&mut host, &mut cx);
    assert_eq!(blank.nodes(&st).count(), 0);

    let prim = BasicView::Prim;
    let st = prim.build(&mut host, &mut cx);
    let span = prim.nodes(&st);
    assert_eq!(span.count(), 1);
    for e in span.to_vec() {
        assert!(host.is_live(e));
    }

    let counted = BasicView::Counted(0);
    let st = counted.build(&mut host, &mut cx);
    let span = counted.nodes(&st);
    assert_eq!(span.count(), 3);
    for e in span.to_vec() {
        assert!(host.is_live(e));
    }
}

#[test]
fn counted_rebuild_follows_its_input() {
    let mut host = Host::new();
    let owner = host.spawn();
    host.set_input(5, 1);
    let mut cx = fresh_cx(owner);
    let view = BasicView::Counted(5);
    let mut st = view.build(&mut host, &mut cx);
    // An input-driven view reports a Sequence whatever its count, even one.
    assert!(matches!(view.nodes(&st), NodeSpan::Sequence(_)));
    let before = view.nodes(&st).to_vec();
    assert_eq!(before.len(), 1);

    // Unchanged input: the rebuild reports no change and reuses the span.
    let changed = view.rebuild(&mut host, &mut cx, &mut st);
    assert!(!changed);
    assert_eq!(view.nodes(&st).to_vec(), before);

    // The declared output grows from one primitive to two.
    host.set_input(5, 2);
    let changed = view.rebuild(&mut host, &mut cx, &mut st);
    assert!(changed);
    let after = view.nodes(&st).to_vec();
    assert_eq!(after.len(), 2);
    for e in &after {
        assert!(host.is_live(*e));
    }
    // The prior primitive was destroyed, not leaked.
    assert!(!host.is_live(before[0]));

    // Attaching establishes both new primitives under the owner.
    view.attach_children(&mut host, &mut cx, &mut st);
    for e in &after {
        assert_eq!(host.parent(*e), Some(owner));
    }
}

#[test]
fn attach_children_is_idempotent() {
    let mut host = Host::new();
    let owner = host.spawn();
    host.set_input(2, 4);
    let mut cx = fresh_cx(owner);
    let view = BasicView::Counted(2);
    let mut st = view.build(&mut host, &mut cx);

    view.attach_children(&mut host, &mut cx, &mut st);
    let relations_first = host.ents.clone();
    view.attach_children(&mut host, &mut cx, &mut st);
    assert_eq!(host.ents, relations_first);
}

#[test]
fn raze_destroys_exactly_the_owned_primitives() {
    let mut host = Host::new();
    let owner = host.spawn();
    let bystander = host.spawn();
    host.set_input(1, 2);
    let mut cx = fresh_cx(owner);
    let view = BasicView::Counted(1);
    let mut st = view.build(&mut host, &mut cx);
    let owned = view.nodes(&st).to_vec();

    view.raze(&mut host, &mut st);
    for e in owned {
        assert!(!host.is_live(e));
    }
    assert!(host.is_live(owner));
    assert!(host.is_live(bystander));
}

#[test]
fn rebuild_to_zero_empties_the_span() {
    let mut host = Host::new();
    let owner = host.spawn();
    host.set_input(0, 2);
    let mut cx = fresh_cx(owner);
    let view = BasicView::Counted(0);
    let mut st = view.build(&mut host, &mut cx);
    let before = view.nodes(&st).to_vec();

    host.set_input(0, 0);
    let changed = view.rebuild(&mut host, &mut cx, &mut st);
    assert!(changed);
    assert_eq!(view.nodes(&st).count(), 0);
    for e in before {
        assert!(!host.is_live(e));
    }
}
