//! Root anchors and the per-cycle tree driver.
//!
//! A root anchor attaches a view tree's root handle to a host entity.
//! Once per drive cycle the driver discovers the anchors not yet driven,
//! gives each a fresh tracking scope stamped with the current tick, and
//! drives its handle once — which performs the first build of a newly
//! installed root. Steady-state re-driving of already-built roots is the
//! reactive collaborator's job, through the same handle interface.

use vstd::prelude::*;
use crate::basic::{basic_arity, lemma_arity_inputs_stable, BasicView};
use crate::cells::{ViewCells, ViewHandle};
use crate::host::Host;
use crate::tracking::{Cx, TrackingScope};
use crate::view::{ids_disjoint, ids_has, kid_reconciled, rebuild_step, span_ok, Lifecycle, UiView};

verus! {

/// A component which holds the root handle of a view hierarchy.
#[derive(Clone, Copy, Debug)]
pub struct ViewRoot {
    /// The handle of the tree root.
    pub handle: ViewHandle,
}

impl ViewRoot {
    /// Install `view` in a fresh cell and wrap its handle as a tree root.
    pub fn new(view: BasicView, cells: &mut ViewCells) -> (r: ViewRoot)
        requires
            old(cells).wf(),
        ensures
            final(cells).n() == old(cells).n() + 1,
            final(cells).wf(),
            forall|j: int| 0 <= j < old(cells).n() ==> final(cells).cells@[j] == old(
                cells,
            ).cells@[j],
            r.handle.target == Some((old(cells).n()) as usize),
            r.handle.valid(*final(cells)),
            final(cells).holder_at(old(cells).n()).phase == Lifecycle::Unbuilt,
            final(cells).holder_at(old(cells).n()).view == view,
            forall|host: Host| old(cells).ok(host) ==> final(cells).ok(host),
    {
        ViewRoot { handle: ViewHandle::new(view, cells) }
    }
}

/// A root anchor: a view root attached to one host entity, with the mark
/// the driver uses to recognize anchors added since the previous cycle.
#[derive(Clone, Copy, Debug)]
pub struct RootAnchor {
    /// The host entity the tree root is attached to.
    pub entity: usize,
    /// The root of the view hierarchy.
    pub root: ViewRoot,
    /// Whether a drive cycle has already processed this anchor.
    pub driven: bool,
}

/// Some anchor not yet driven targets cell `j`.
pub open spec fn anchors_target(anchors: Seq<RootAnchor>, j: int) -> bool {
    exists|k: int|
        0 <= k < anchors.len() && !(#[trigger] anchors[k]).driven
            && anchors[k].root.handle.target is Some && anchors[k].root.handle.target->0 as int == j
}

/// Entity `e` lies in the span, under `cells`, of a cell that some anchor
/// not yet driven targets.
pub open spec fn anchors_own(anchors: Seq<RootAnchor>, cells: ViewCells, e: int) -> bool {
    exists|k: int|
        0 <= k < anchors.len() && !(#[trigger] anchors[k]).driven
            && anchors[k].root.handle.target is Some && ids_has(
            cells.span_ids_at(anchors[k].root.handle.target->0 as int),
            e,
        )
}

/// One drive cycle: for every anchor not yet driven, create a fresh
/// tracking scope stamped with the current tick, a drive context scoped
/// to the anchor's entity, and drive the root handle once — the first
/// build of a newly installed root. Every anchor comes out driven; each
/// newly driven root's holder steps per `rebuild_step` (an unbuilt one
/// is built) and, if built, its span matches the installed view's
/// declared arity; its old primitives are kept untouched or destroyed,
/// and its new ones adopted or fresh. Cells no newly driven anchor
/// targets, and host entities outside the newly driven roots' spans, are
/// untouched.
#[verifier::loop_isolation(false)]
pub fn create_views(host: &mut Host, cells: &mut ViewCells, anchors: &mut Vec<RootAnchor>)
    requires
        old(cells).wf(),
        old(cells).ok(*old(host)),
        forall|k: int|
            0 <= k < old(anchors)@.len() ==> (#[trigger] old(anchors)@[k]).root.handle.valid(
                *old(cells),
            ),
    ensures
        final(cells).wf(),
        final(cells).ok(*final(host)),
        final(cells).n() == old(cells).n(),
        final(anchors)@.len() == old(anchors)@.len(),
        forall|k: int|
            0 <= k < final(anchors)@.len() ==> (#[trigger] final(anchors)@[k]).entity == old(
                anchors,
            )@[k].entity && final(anchors)@[k].root == old(anchors)@[k].root,
        forall|k: int| 0 <= k < final(anchors)@.len() ==> (#[trigger] final(anchors)@[k]).driven,
        forall|j: int|
            ({
                let post = *final(cells);
                0 <= j < old(cells).n() && !(#[trigger] anchors_target(old(anchors)@, j))
                    ==> post.cells@[j] == old(cells).cells@[j]
            }),
        forall|e: int|
            0 <= e < old(host).ents@.len() && !anchors_own(old(anchors)@, *old(cells), e)
                ==> final(host).ents@[e] == old(host).ents@[e],
        forall|k: int|
            ({
                let t = (#[trigger] final(anchors)@[k]).root.handle.target;
                let pre = *old(cells);
                let post = *final(cells);
                0 <= k < final(anchors)@.len() && !old(anchors)@[k].driven && t is Some
                    ==> rebuild_step(
                    pre.holder_at(t->0 as int).phase,
                    post.holder_at(t->0 as int).phase,
                )
            }),
        forall|k: int|
            ({
                let t = (#[trigger] final(anchors)@[k]).root.handle.target;
                let post = *final(cells);
                0 <= k < final(anchors)@.len() && !old(anchors)@[k].driven && t is Some
                    && post.holder_at(t->0 as int).phase == Lifecycle::Built ==> post.span_ids_at(
                    t->0 as int,
                ).len() == basic_arity(old(cells).holder_at(t->0 as int).view, *final(host))
            }),
        forall|k: int|
            ({
                let t = (#[trigger] final(anchors)@[k]).root.handle.target;
                let pre = *old(cells);
                let post = *final(cells);
                0 <= k < final(anchors)@.len() && !old(anchors)@[k].driven && t is Some
                    ==> kid_reconciled(
                    *old(host),
                    *final(host),
                    pre.span_ids_at(t->0 as int),
                    post.span_ids_at(t->0 as int),
                )
            }),
        old(host).ents@.len() <= final(host).ents@.len(),
        final(host).inputs == old(host).inputs,
        final(host).tick == old(host).tick,
{
    let mut a: usize = 0;
    while a < anchors.len()
        invariant
            a <= anchors@.len(),
            cells.wf(),
            cells.ok(*host),
            cells.n() == old(cells).n(),
            anchors@.len() == old(anchors)@.len(),
            forall|k: int|
                0 <= k < anchors@.len() ==> (#[trigger] anchors@[k]).entity == old(
                    anchors,
                )@[k].entity && anchors@[k].root == old(anchors)@[k].root,
            forall|k: int|
                0 <= k < anchors@.len() ==> (#[trigger] anchors@[k]).root.handle.valid(*cells),
            forall|k: int| 0 <= k < a ==> (#[trigger] anchors@[k]).driven,
            forall|k: int|
                a <= k < anchors@.len() ==> (#[trigger] anchors@[k]).driven == old(
                    anchors,
                )@[k].driven,
            forall|j: int|
                0 <= j < old(cells).n() && !anchors_target(old(anchors)@, j)
                    ==> cells.cells@[j] == old(cells).cells@[j],
            forall|e: int|
                0 <= e < old(host).ents@.len() && !anchors_own(old(anchors)@, *old(cells), e)
                    ==> host.ents@[e] == old(host).ents@[e],
            forall|j: int, e: usize|
                0 <= j < old(cells).n() && anchors_target(old(anchors)@, j) && #[trigger] ids_has(
                    cells.span_ids_at(j),
                    e as int,
                ) ==> ids_has(old(cells).span_ids_at(j), e as int) || e
                    >= old(host).ents@.len(),
            forall|j: int|
                0 <= j < old(cells).n() ==> (#[trigger] cells.cells@[j] == old(cells).cells@[j]
                    || rebuild_step(old(cells).holder_at(j).phase, cells.holder_at(j).phase)),
            forall|j: int, h2: Host|
                0 <= j < old(cells).n() ==> #[trigger] basic_arity(cells.holder_at(j).view, h2)
                    == basic_arity(old(cells).holder_at(j).view, h2),
            forall|j: int|
                0 <= j < old(cells).n() && #[trigger] anchors_target(old(anchors)@, j)
                    ==> kid_reconciled(
                    *old(host),
                    *host,
                    old(cells).span_ids_at(j),
                    cells.span_ids_at(j),
                ),
            forall|k: int|
                ({
                    let t = (#[trigger] anchors@[k]).root.handle.target;
                    0 <= k < a && !old(anchors)@[k].driven && t is Some ==> rebuild_step(
                        old(cells).holder_at(t->0 as int).phase,
                        cells.holder_at(t->0 as int).phase,
                    )
                }),
            forall|k: int|
                ({
                    let t = (#[trigger] anchors@[k]).root.handle.target;
                    0 <= k < a && !old(anchors)@[k].driven && t is Some && cells.holder_at(
                        t->0 as int,
                    ).phase == Lifecycle::Built ==> cells.span_ids_at(t->0 as int).len()
                        == basic_arity(cells.holder_at(t->0 as int).view, *host)
                }),
            old(host).ents@.len() <= host.ents@.len(),
            host.inputs == old(host).inputs,
            host.tick == old(host).tick,
        decreases anchors@.len() - a,
    {
        let rec = anchors[a];
        let ghost c_pre = *cells;
        let ghost h_pre = *host;
        if !rec.driven {
            let scope = TrackingScope::new(host.tick);
            let mut cx = Cx::new(rec.entity, scope);
            let h = rec.root.handle;
            h.rebuild(cells, host, &mut cx);
            proof {
                if h.target is Some {
                    let i = h.target->0 as int;
                    assert(anchors_target(old(anchors)@, i)) by {
                        assert(!(old(anchors)@[a as int]).driven);
                        assert(old(anchors)@[a as int].root.handle.target is Some);
                        assert(old(anchors)@[a as int].root.handle.target->0 as int == i);
                    }
                    // the host frame outside the targeted spans
                    assert forall|e: int|
                        0 <= e < old(host).ents@.len() && !anchors_own(
                            old(anchors)@,
                            *old(cells),
                            e,
                        ) implies host.ents@[e] == old(host).ents@[e] by {
                        assert(!ids_has(c_pre.span_ids_at(i), e)) by {
                            if ids_has(c_pre.span_ids_at(i), e) {
                                let x = choose|x: int|
                                    0 <= x < c_pre.span_ids_at(i).len() && c_pre.span_ids_at(
                                        i,
                                    )[x] as int == e;
                                let eu = c_pre.span_ids_at(i)[x];
                                assert(ids_has(c_pre.span_ids_at(i), eu as int));
                                assert(ids_has(old(cells).span_ids_at(i), eu as int) || eu >= old(
                                    host,
                                ).ents@.len());
                                assert(ids_has(old(cells).span_ids_at(i), e));
                                assert(anchors_own(old(anchors)@, *old(cells), e)) by {
                                    assert(!(old(anchors)@[a as int]).driven);
                                }
                                assert(false);
                            }
                        }
                        assert(host.ents@[e] == h_pre.ents@[e]);
                    }
                    // targeted spans stay within the entry span plus fresh
                    assert forall|j: int, e: usize|
                        0 <= j < old(cells).n() && anchors_target(old(anchors)@, j)
                            && #[trigger] ids_has(cells.span_ids_at(j), e as int) implies ids_has(
                        old(cells).span_ids_at(j),
                        e as int,
                    ) || e >= old(host).ents@.len() by {
                        if j == i {
                            if ids_has(c_pre.span_ids_at(i), e as int) {
                                assert(ids_has(old(cells).span_ids_at(j), e as int) || e >= old(
                                    host,
                                ).ents@.len());
                            } else {
                                assert(e >= h_pre.ents@.len());
                            }
                        } else {
                            assert(cells.cells@[j] == c_pre.cells@[j]);
                            assert(ids_has(c_pre.span_ids_at(j), e as int));
                        }
                    }
                    // per-cell lifecycle accumulation
                    assert forall|j: int|
                        0 <= j < old(cells).n() implies (#[trigger] cells.cells@[j] == old(
                        cells,
                    ).cells@[j] || rebuild_step(
                        old(cells).holder_at(j).phase,
                        cells.holder_at(j).phase,
                    )) by {
                        if j == i {
                            if c_pre.cells@[i] == old(cells).cells@[i] {
                                assert(rebuild_step(
                                    old(cells).holder_at(i).phase,
                                    cells.holder_at(i).phase,
                                ));
                            } else {
                                assert(rebuild_step(
                                    old(cells).holder_at(i).phase,
                                    c_pre.holder_at(i).phase,
                                ));
                                assert(rebuild_step(
                                    c_pre.holder_at(i).phase,
                                    cells.holder_at(i).phase,
                                ));
                            }
                        } else {
                            assert(cells.cells@[j] == c_pre.cells@[j]);
                        }
                    }
                    // the held views' declared arities are preserved
                    assert forall|j: int, h2: Host|
                        0 <= j < old(cells).n() implies #[trigger] basic_arity(
                        cells.holder_at(j).view,
                        h2,
                    ) == basic_arity(old(cells).holder_at(j).view, h2) by {
                        if j == i {
                            assert(cells.holder_at(i).view.arity(h2) == c_pre.holder_at(
                                i,
                            ).view.arity(h2));
                            assert(basic_arity(cells.holder_at(i).view, h2) == basic_arity(
                                c_pre.holder_at(i).view,
                                h2,
                            ));
                        } else {
                            assert(cells.cells@[j] == c_pre.cells@[j]);
                        }
                    }
                    // per-cell reconciliation residue relative to the cycle start
                    assert forall|j: int|
                        0 <= j < old(cells).n() && #[trigger] anchors_target(
                            old(anchors)@,
                            j,
                        ) implies kid_reconciled(
                        *old(host),
                        *host,
                        old(cells).span_ids_at(j),
                        cells.span_ids_at(j),
                    ) by {
                        let entry_j = old(cells).span_ids_at(j);
                        let entry_i = old(cells).span_ids_at(i);
                        let cur_j = cells.span_ids_at(j);
                        let pre_j = c_pre.span_ids_at(j);
                        let pre_i = c_pre.span_ids_at(i);
                        assert(kid_reconciled(*old(host), h_pre, entry_j, pre_j));
                        assert(span_ok(
                            old(cells).cells@[j].holder.current_span(),
                            *old(host),
                        ));
                        assert(span_ok(c_pre.cells@[j].holder.current_span(), h_pre));
                        if j == i {
                            assert forall|e: usize|
                                #[trigger] ids_has(entry_j, e as int) && ids_has(
                                    cur_j,
                                    e as int,
                                ) implies host.ents@[e as int] == old(host).ents@[e as int] by {
                                let w = choose|w: int|
                                    0 <= w < entry_j.len() && entry_j[w] as int == e as int;
                                assert(old(cells).cells@[j].holder.current_span().ids()[w]
                                    == entry_j[w]);
                                assert(old(host).live(entry_j[w]));
                                assert(ids_has(pre_i, e as int)) by {
                                    if !ids_has(pre_i, e as int) {
                                        assert(e >= h_pre.ents@.len());
                                    }
                                }
                                assert(host.ents@[e as int] == h_pre.ents@[e as int]);
                                assert(h_pre.ents@[e as int] == old(host).ents@[e as int]);
                            }
                            assert forall|e: usize|
                                #[trigger] ids_has(entry_j, e as int) && !ids_has(
                                    cur_j,
                                    e as int,
                                ) implies !host.live(e) by {
                                let w = choose|w: int|
                                    0 <= w < entry_j.len() && entry_j[w] as int == e as int;
                                assert(old(cells).cells@[j].holder.current_span().ids()[w]
                                    == entry_j[w]);
                                assert(old(host).live(entry_j[w]));
                                if ids_has(pre_i, e as int) {
                                    assert(!host.live(e));
                                } else {
                                    assert(!h_pre.live(e));
                                    assert(host.ents@[e as int] == h_pre.ents@[e as int]);
                                }
                            }
                            assert forall|e: usize|
                                #[trigger] ids_has(cur_j, e as int) && !ids_has(
                                    entry_j,
                                    e as int,
                                ) implies e >= old(host).ents@.len() by {
                                if ids_has(pre_i, e as int) {
                                    assert(e >= old(host).ents@.len());
                                } else {
                                    assert(e >= h_pre.ents@.len());
                                }
                            }
                        } else {
                            assert(cells.cells@[j] == c_pre.cells@[j]);
                            assert(cur_j == pre_j);
                            assert(ids_disjoint(pre_j, pre_i)) by {
                                if j < i {
                                    assert(ids_disjoint(
                                        c_pre.span_ids_at(j),
                                        c_pre.span_ids_at(i),
                                    ));
                                } else {
                                    assert(ids_disjoint(
                                        c_pre.span_ids_at(i),
                                        c_pre.span_ids_at(j),
                                    ));
                                    crate::view::lemma_ids_disjoint_sym(pre_i, pre_j);
                                }
                            }
                            assert(ids_disjoint(entry_j, entry_i)) by {
                                if j < i {
                                    assert(ids_disjoint(
                                        old(cells).span_ids_at(j),
                                        old(cells).span_ids_at(i),
                                    ));
                                } else {
                                    assert(ids_disjoint(
                                        old(cells).span_ids_at(i),
                                        old(cells).span_ids_at(j),
                                    ));
                                    crate::view::lemma_ids_disjoint_sym(entry_i, entry_j);
                                }
                            }
                            assert forall|e: usize|
                                #[trigger] ids_has(entry_j, e as int) && ids_has(
                                    cur_j,
                                    e as int,
                                ) implies host.ents@[e as int] == old(host).ents@[e as int] by {
                                assert(h_pre.ents@[e as int] == old(host).ents@[e as int]);
                                let w = choose|w: int|
                                    0 <= w < pre_j.len() && pre_j[w] as int == e as int;
                                assert(c_pre.cells@[j].holder.current_span().ids()[w]
                                    == pre_j[w]);
                                assert(h_pre.live(pre_j[w]));
                                assert(!ids_has(pre_i, e as int));
                                assert(host.ents@[e as int] == h_pre.ents@[e as int]);
                            }
                            assert forall|e: usize|
                                #[trigger] ids_has(entry_j, e as int) && !ids_has(
                                    cur_j,
                                    e as int,
                                ) implies !host.live(e) by {
                                assert(!h_pre.live(e));
                                let w = choose|w: int|
                                    0 <= w < entry_j.len() && entry_j[w] as int == e as int;
                                assert(old(cells).cells@[j].holder.current_span().ids()[w]
                                    == entry_j[w]);
                                assert(old(host).live(entry_j[w]));
                                assert(!ids_has(pre_i, e as int)) by {
                                    if ids_has(pre_i, e as int) {
                                        assert(ids_has(entry_i, e as int) || e >= old(
                                            host,
                                        ).ents@.len());
                                    }
                                }
                                assert(host.ents@[e as int] == h_pre.ents@[e as int]);
                            }
                        }
                    }
                    // processed anchors: lifecycle step and realized arity
                    assert forall|k: int|
                        ({
                            let t = (#[trigger] anchors@[k]).root.handle.target;
                            0 <= k < a + 1 && !old(anchors)@[k].driven && t is Some
                                ==> rebuild_step(
                                old(cells).holder_at(t->0 as int).phase,
                                cells.holder_at(t->0 as int).phase,
                            )
                        }) by {
                        let t = anchors@[k].root.handle.target;
                        if 0 <= k < a + 1 && !old(anchors)@[k].driven && t is Some {
                            let j = t->0 as int;
                            if j != i {
                                assert(cells.cells@[j] == c_pre.cells@[j]);
                            } else {
                                if k < a {
                                    assert(rebuild_step(
                                        old(cells).holder_at(j).phase,
                                        c_pre.holder_at(j).phase,
                                    ));
                                } else {
                                    assert(c_pre.cells@[j] == old(cells).cells@[j] || rebuild_step(
                                        old(cells).holder_at(j).phase,
                                        c_pre.holder_at(j).phase,
                                    ));
                                }
                                assert(rebuild_step(
                                    c_pre.holder_at(j).phase,
                                    cells.holder_at(j).phase,
                                ));
                            }
                        }
                    }
                    assert forall|k: int|
                        ({
                            let t = (#[trigger] anchors@[k]).root.handle.target;
                            0 <= k < a + 1 && !old(anchors)@[k].driven && t is Some
                                && cells.holder_at(t->0 as int).phase == Lifecycle::Built
                                ==> cells.span_ids_at(t->0 as int).len() == basic_arity(
                                cells.holder_at(t->0 as int).view,
                                *host,
                            )
                        }) by {
                        let t = anchors@[k].root.handle.target;
                        if 0 <= k < a + 1 && !old(anchors)@[k].driven && t is Some
                            && cells.holder_at(t->0 as int).phase == Lifecycle::Built {
                            let j = t->0 as int;
                            if j != i {
                                assert(cells.cells@[j] == c_pre.cells@[j]);
                                assert(k < a);
                                lemma_arity_inputs_stable(
                                    cells.holder_at(j).view,
                                    h_pre,
                                    *host,
                                );
                            }
                        }
                    }
                }
            }
        }
        anchors.set(a, RootAnchor { entity: rec.entity, root: rec.root, driven: true });
        a = a + 1;
    }
    proof {
        assert forall|k: int|
            ({
                let t = (#[trigger] anchors@[k]).root.handle.target;
                0 <= k < anchors@.len() && !old(anchors)@[k].driven && t is Some
                    ==> kid_reconciled(
                    *old(host),
                    *host,
                    old(cells).span_ids_at(t->0 as int),
                    cells.span_ids_at(t->0 as int),
                )
            }) by {
            let t = anchors@[k].root.handle.target;
            if 0 <= k < anchors@.len() && !old(anchors)@[k].driven && t is Some {
                let j = t->0 as int;
                assert(anchors_target(old(anchors)@, j)) by {
                    assert(!(old(anchors)@[k]).driven);
                    assert(old(anchors)@[k].root.handle.target is Some);
                    assert(old(anchors)@[k].root.handle.target->0 as int == j);
                }
                assert(kid_reconciled(
                    *old(host),
                    *host,
                    old(cells).span_ids_at(j),
                    cells.span_ids_at(j),
                ));
            }
        }
    }
}

} // verus!
