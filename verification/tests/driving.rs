//! Root anchors, the drive cycle, and the substrate model.

use view_tree::{
    create_views, BasicView, Cx, Host, Lifecycle, RootAnchor, TrackingScope, ViewCells, ViewRoot,
};

#[test]
fn first_drive_builds_a_new_root() {
    let mut host = Host::new();
    let mut cells = ViewCells::new();
    let entity = host.spawn();
    let root = ViewRoot::new(BasicView::Prim, &mut cells);
    let mut anchors = vec![RootAnchor { entity, root, driven: false }];

    create_views(&mut host, &mut cells, &mut anchors);

    assert!(anchors[0].driven);
    let span = root.handle.nodes(&cells);
    let ids = span.to_vec();
    assert_eq!(ids.len(), 1);
    assert!(host.is_live(ids[0]));
}

#[test]
fn drive_cycle_handles_several_new_roots() {
    let mut host = Host::new();
    let mut cells = ViewCells::new();
    host.set_input(0, 2);
    let e1 = host.spawn();
    let e2 = host.spawn();
    let r1 = ViewRoot::new(BasicView::Prim, &mut cells);
    let r2 = ViewRoot::new(BasicView::Counted(0), &mut cells);
    let mut anchors = vec![
        RootAnchor { entity: e1, root: r1, driven: false },
        RootAnchor { entity: e2, root: r2, driven: false },
    ];

    create_views(&mut host, &mut cells, &mut anchors);

    assert!(anchors[0].driven && anchors[1].driven);
    assert_eq!(r1.handle.nodes(&cells).count(), 1);
    assert_eq!(r2.handle.nodes(&cells).count(), 2);
    // Distinct roots own distinct primitives.
    let mut all = r1.handle.nodes(&cells).to_vec();
    all.extend(r2.handle.nodes(&cells).to_vec());
    for i in 0..all.len() {
        for j in (i + 1)..all.len() {
            assert_ne!(all[i], all[j]);
        }
    }
}

#[test]
fn second_drive_leaves_settled_roots_alone() {
    let mut host = Host::new();
    let mut cells = ViewCells::new();
    let entity = host.spawn();
    let root = ViewRoot::new(BasicView::Prim, &mut cells);
    let mut anchors = vec![RootAnchor { entity, root, driven: false }];

    create_views(&mut host, &mut cells, &mut anchors);
    let ids = root.handle.nodes(&cells).to_vec();
    let ents_after_first = host.ents.clone();

    create_views(&mut host, &mut cells, &mut anchors);
    assert_eq!(host.ents, ents_after_first);
    assert_eq!(root.handle.nodes(&cells).to_vec(), ids);
}

#[test]
fn driving_a_razed_root_stays_inert() {
    let mut host = Host::new();
    let mut cells = ViewCells::new();
    let entity = host.spawn();
    let root = ViewRoot::new(BasicView::Prim, &mut cells);
    let mut anchors = vec![RootAnchor { entity, root, driven: false }];
    create_views(&mut host, &mut cells, &mut anchors);
    root.handle.raze(&mut cells, &mut host);

    // Mark it undriven again: the drive must not rebuild a razed holder.
    anchors[0].driven = false;
    create_views(&mut host, &mut cells, &mut anchors);
    assert_eq!(root.handle.nodes(&cells).count(), 0);
    if let Some(i) = root.handle.target {
        assert!(matches!(cells.cells[i].holder.phase, Lifecycle::Razed));
    }
}

#[test]
fn tracking_scope_records_each_input_once() {
    let mut s = TrackingScope::new(9);
    assert_eq!(s.tick, 9);
    s.track(3);
    s.track(8);
    s.track(3);
    assert_eq!(s.reads, vec![3, 8]);
}

#[test]
fn reading_an_input_records_the_dependency() {
    let mut host = Host::new();
    host.set_input(4, 11);
    let mut cx = Cx::new(0, TrackingScope::new(1));
    assert_eq!(cx.read_input(&host, 4), 11);
    assert_eq!(cx.read_input(&host, 9), 0);
    assert_eq!(cx.scope.reads, vec![4, 9]);
}

#[test]
fn host_substrate_basics() {
    let mut host = Host::new();
    let a = host.spawn();
    let b = host.spawn();
    assert_eq!(a, 0);
    assert_eq!(b, 1);
    assert!(host.is_live(a) && host.is_live(b));
    assert_eq!(host.parent(b), None);

    host.set_parent(b, a);
    assert_eq!(host.parent(b), Some(a));

    host.despawn(b);
    assert!(!host.is_live(b));
    assert!(host.is_live(a));
    // Ids are never reused: a later spawn gets a fresh id.
    let c = host.spawn();
    assert_eq!(c, 2);

    assert_eq!(host.input(0), 0);
    host.set_input(3, 7);
    assert_eq!(host.input(3), 7);
    assert_eq!(host.input(2), 0);
}
