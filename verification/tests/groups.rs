//! Composite views: a parent aggregating an ordered row of children.

use view_tree::{BasicView, Cx, Host, NodeSpan, TrackingScope, UiView};

fn fresh_cx(owner: usize) -> Cx {
    Cx::new(owner, TrackingScope::new(0))
}

fn group(children: Vec<BasicView>) -> BasicView {
    BasicView::Group(children)
}

#[test]
fn group_span_is_the_ordered_concatenation() {
    let mut host = Host::new();
    let owner = host.spawn();
    host.set_input(0, 2);
    let mut cx = fresh_cx(owner);
    let view = group(vec![
        BasicView::Prim,
        BasicView::Blank,
        BasicView::Counted(0),
        BasicView::Prim,
    ]);
    let st = view.build(&mut host, &mut cx);
    let span = view.nodes(&st);
    // 1 + 0 + 2 + 1 primitives, in child order, all live and distinct.
    let ids = span.to_vec();
    assert_eq!(ids.len(), 4);
    for i in 0..ids.len() {
        assert!(host.is_live(ids[i]));
        for j in (i + 1)..ids.len() {
            assert_ne!(ids[i], ids[j]);
        }
    }
}

#[test]
fn nested_groups_flatten_in_order() {
    let mut host = Host::new();
    let owner = host.spawn();
    let mut cx = fresh_cx(owner);
    let view = group(vec![
        BasicView::Prim,
        group(vec![BasicView::Prim, group(vec![BasicView::Prim])]),
    ]);
    let st = view.build(&mut host, &mut cx);
    assert_eq!(view.nodes(&st).count(), 3);
}

#[test]
fn group_rebuild_touches_only_the_changed_child() {
    let mut host = Host::new();
    let owner = host.spawn();
    host.set_input(1, 1);
    let mut cx = fresh_cx(owner);
    let view = group(vec![BasicView::Prim, BasicView::Counted(1)]);
    let mut st = view.build(&mut host, &mut cx);
    let before = view.nodes(&st).to_vec();
    assert_eq!(before.len(), 2);

    // No input change: the rebuild reports no change and keeps every
    // primitive.
    assert!(!view.rebuild(&mut host, &mut cx, &mut st));
    assert_eq!(view.nodes(&st).to_vec(), before);

    // Grow the counted child: the stable sibling's primitive survives.
    host.set_input(1, 3);
    assert!(view.rebuild(&mut host, &mut cx, &mut st));
    let after = view.nodes(&st).to_vec();
    assert_eq!(after.len(), 4);
    assert_eq!(after[0], before[0]);
    assert!(host.is_live(before[0]));
    // The replaced child's old primitive is destroyed, not leaked.
    assert!(!host.is_live(before[1]));
}

#[test]
fn group_attach_parents_every_primitive() {
    let mut host = Host::new();
    let owner = host.spawn();
    host.set_input(0, 2);
    let mut cx = fresh_cx(owner);
    let view = group(vec![BasicView::Counted(0), BasicView::Prim]);
    let mut st = view.build(&mut host, &mut cx);
    view.attach_children(&mut host, &mut cx, &mut st);
    for e in view.nodes(&st).to_vec() {
        assert_eq!(host.parent(e), Some(owner));
    }
    // Idempotent: a second attach leaves the relations untouched.
    let snapshot = host.ents.clone();
    view.attach_children(&mut host, &mut cx, &mut st);
    assert_eq!(host.ents, snapshot);
}

#[test]
fn group_raze_destroys_the_whole_subtree_once() {
    let mut host = Host::new();
    let owner = host.spawn();
    host.set_input(0, 2);
    let mut cx = fresh_cx(owner);
    let view = group(vec![BasicView::Prim, group(vec![BasicView::Counted(0)])]);
    let mut st = view.build(&mut host, &mut cx);
    let owned = view.nodes(&st).to_vec();
    assert_eq!(owned.len(), 3);

    view.raze(&mut host, &mut st);
    for e in owned {
        assert!(!host.is_live(e));
    }
    assert!(host.is_live(owner));
}

#[test]
fn empty_group_has_an_empty_span() {
    let mut host = Host::new();
    let mut cx = fresh_cx(0);
    let view = group(Vec::new());
    let st = view.build(&mut host, &mut cx);
    assert_eq!(view.nodes(&st).count(), 0);
    assert!(matches!(view.nodes(&st), NodeSpan::Sequence(_)));
}
