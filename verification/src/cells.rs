//! Shared handles over type-erased holders.
//!
//! Holders live in an arena of cells; a handle is a copyable reference to
//! one cell (or to nothing, for the default empty view). Cloning a handle
//! shares the holder, it never copies state; mutation goes through the
//! arena, so at most one caller touches a holder at a time. The arena
//! keeps every holder consistent and every pair of holders' spans
//! disjoint, so driving one subtree never touches another's primitives.

use vstd::prelude::*;
use crate::basic::{BasicState, BasicView};
use crate::host::Host;
use crate::span::NodeSpan;
use crate::tracking::Cx;
use crate::span::span_matches;
use crate::view::{
    ids_disjoint,
    ids_has,
    raze_effect,
    raze_target,
    rebuild_step,
    reconcile_effect,
    span_ok,
    AnyViewState,
    Lifecycle,
    UiView,
    ViewState,
};

verus! {

/// One arena slot, holding a reference-shared view holder.
pub struct ViewCell {
    /// The holder this cell owns.
    pub holder: ViewState<BasicState, BasicView>,
}

/// The arena of view cells. Cells are never removed, so a handle stays
/// valid for the life of the arena.
pub struct ViewCells {
    /// The cells, indexed by handle.
    pub cells: Vec<ViewCell>,
}

/// A reference to a view holder which can be passed around and cloned
/// freely. The default handle refers to no cell and behaves as the empty
/// view: empty span, no-op rebuild, no-op raze.
#[derive(Clone, Copy, Debug)]
pub struct ViewHandle {
    /// The cell this handle refers to, if any.
    pub target: Option<usize>,
}

impl ViewCells {
    /// How many cells the arena holds.
    pub open spec fn n(self) -> int {
        self.cells@.len() as int
    }

    /// The holder in cell `i`.
    pub open spec fn holder_at(self, i: int) -> ViewState<BasicState, BasicView> {
        self.cells@[i].holder
    }

    /// The primitives currently owned by the holder in cell `i`.
    pub open spec fn span_ids_at(self, i: int) -> Seq<usize> {
        self.holder_at(i).current_span().ids()
    }

    /// Every holder is internally consistent.
    pub open spec fn wf(self) -> bool {
        forall|i: int| 0 <= i < self.n() ==> (#[trigger] self.cells@[i]).holder.wf()
    }

    /// Every holder's span is realized in the host, and no two holders
    /// own a primitive in common.
    pub open spec fn ok(self, host: Host) -> bool {
        &&& forall|i: int|
            0 <= i < self.n() ==> span_ok((#[trigger] self.cells@[i]).holder.current_span(), host)
        &&& forall|i: int, j: int|
            0 <= i < j < self.n() ==> ids_disjoint(self.span_ids_at(i), self.span_ids_at(j))
    }

    /// An arena with no cells.
    pub fn new() -> (c: ViewCells)
        ensures
            c.n() == 0,
            c.wf(),
            forall|host: Host| c.ok(host),
    {
        ViewCells { cells: Vec::new() }
    }
}

impl ViewHandle {
    /// The handle points inside the arena (or at nothing).
    pub open spec fn valid(self, cells: ViewCells) -> bool {
        self.target is Some ==> (self.target->0 as int) < cells.n()
    }

    /// Install `view` in a fresh, unbuilt cell of the arena and return a
    /// handle to it.
    pub fn new(view: BasicView, cells: &mut ViewCells) -> (h: ViewHandle)
        requires
            old(cells).wf(),
        ensures
            final(cells).n() == old(cells).n() + 1,
            final(cells).wf(),
            forall|j: int| 0 <= j < old(cells).n() ==> final(cells).cells@[j] == old(
                cells,
            ).cells@[j],
            h.target == Some((old(cells).n()) as usize),
            h.valid(*final(cells)),
            final(cells).holder_at(old(cells).n()).phase == Lifecycle::Unbuilt,
            final(cells).holder_at(old(cells).n()).view == view,
            final(cells).span_ids_at(old(cells).n()) == Seq::<usize>::empty(),
            forall|host: Host| old(cells).ok(host) ==> final(cells).ok(host),
    {
        let i = cells.cells.len();
        cells.cells.push(ViewCell { holder: ViewState::new(view) });
        proof {
            assert forall|host: Host| old(cells).ok(host) implies cells.ok(host) by {
                assert forall|k: int| 0 <= k < cells.n() implies span_ok(
                    (#[trigger] cells.cells@[k]).holder.current_span(),
                    host,
                ) by {
                    if k < i {
                        assert(cells.cells@[k] == old(cells).cells@[k]);
                    }
                }
                assert forall|k1: int, k2: int| 0 <= k1 < k2 < cells.n() implies ids_disjoint(
                    cells.span_ids_at(k1),
                    cells.span_ids_at(k2),
                ) by {
                    if k2 < i {
                        assert(cells.span_ids_at(k1) == old(cells).span_ids_at(k1));
                        assert(cells.span_ids_at(k2) == old(cells).span_ids_at(k2));
                    } else {
                        assert(cells.span_ids_at(k2) == Seq::<usize>::empty());
                    }
                }
            }
        }
        ViewHandle { target: Some(i) }
    }

    /// The span of primitives the referenced holder currently reports,
    /// rendered faithfully; exactly `NodeSpan::Empty` for the default
    /// handle.
    pub fn nodes(&self, cells: &ViewCells) -> (r: NodeSpan)
        requires
            cells.wf(),
            self.valid(*cells),
        ensures
            self.target is None ==> r == NodeSpan::Empty,
            ({
                let t = self.target;
                t is Some ==> span_matches(r, cells.holder_at(t->0 as int).current_span())
            }),
    {
        match self.target {
            None => NodeSpan::Empty,
            Some(i) => cells.cells[i].holder.nodes(),
        }
    }

    /// Drive the referenced holder once: build it if it was never built,
    /// rebuild it if built, do nothing if razed (or for the default
    /// handle). Every other cell, and every primitive outside the
    /// holder's old output, is untouched.
    pub fn rebuild(&self, cells: &mut ViewCells, host: &mut Host, cx: &mut Cx) -> (changed: bool)
        requires
            old(cells).wf(),
            old(cells).ok(*old(host)),
            self.valid(*old(cells)),
        ensures
            final(cells).wf(),
            final(cells).ok(*final(host)),
            final(cells).n() == old(cells).n(),
            self.target is None ==> !changed && *final(cells) == *old(cells) && *final(host)
                == *old(host),
            ({
                let t = self.target;
                t is Some ==> {
                    let i = t->0 as int;
                    let pre = old(cells).holder_at(i);
                    let post = final(cells).holder_at(i);
                    &&& forall|j: int|
                        0 <= j < old(cells).n() && j != i ==> final(cells).cells@[j] == old(
                            cells,
                        ).cells@[j]
                    &&& rebuild_step(pre.phase, post.phase)
                    &&& reconcile_effect(
                        *old(host),
                        *final(host),
                        pre.current_span().ids(),
                        post.current_span().ids(),
                    )
                    &&& (post.phase == Lifecycle::Built ==> post.current_span().ids().len()
                        == post.view.arity(*final(host)))
                    &&& forall|h2: Host| #[trigger] post.view.arity(h2) == pre.view.arity(h2)
                    &&& changed == (post.phase != pre.phase || post.current_span().ids()
                        != pre.current_span().ids())
                    &&& (pre.phase == Lifecycle::Razed ==> post == pre && *final(host) == *old(
                        host,
                    ))
                }
            }),
            final(cx).owner == old(cx).owner,
            final(cx).scope.tick == old(cx).scope.tick,
    {
        match self.target {
            None => false,
            Some(i) => {
                proof {
                    assert(old(cells).cells@[i as int].holder.wf());
                    assert(span_ok(old(cells).cells@[i as int].holder.current_span(), *old(host)));
                }
                let changed = {
                    let c = &mut cells.cells[i];
                    c.holder.rebuild(host, cx)
                };
                proof {
                    lemma_cells_keep_others(
                        *old(cells),
                        *cells,
                        *old(host),
                        *host,
                        i as int,
                    );
                    assert forall|h2: Host| #[trigger]
                        cells.holder_at(i as int).view.arity(h2) == old(cells).holder_at(
                        i as int,
                    ).view.arity(h2) by {
                        assert(cells.holder_at(i as int).declared_arity(h2) == old(
                            cells,
                        ).holder_at(i as int).declared_arity(h2));
                    }
                }
                changed
            },
        }
    }

    /// Tear the referenced holder down, destroying exactly the primitives
    /// it owns; a no-op for the default handle, an unbuilt holder, or a
    /// holder already razed.
    pub fn raze(&self, cells: &mut ViewCells, host: &mut Host)
        requires
            old(cells).wf(),
            old(cells).ok(*old(host)),
            self.valid(*old(cells)),
        ensures
            final(cells).wf(),
            final(cells).ok(*final(host)),
            final(cells).n() == old(cells).n(),
            self.target is None ==> *final(cells) == *old(cells) && *final(host) == *old(host),
            ({
                let t = self.target;
                t is Some ==> {
                    let i = t->0 as int;
                    let pre = old(cells).holder_at(i);
                    let post = final(cells).holder_at(i);
                    &&& forall|j: int|
                        0 <= j < old(cells).n() && j != i ==> final(cells).cells@[j] == old(
                            cells,
                        ).cells@[j]
                    &&& post.phase == raze_target(pre.phase)
                    &&& post.current_span() == NodeSpan::Empty
                    &&& raze_effect(*old(host), *final(host), pre.current_span().ids())
                    &&& (pre.phase != Lifecycle::Built ==> post == pre && *final(host) == *old(
                        host,
                    ))
                }
            }),
    {
        match self.target {
            None => {},
            Some(i) => {
                proof {
                    assert(old(cells).cells@[i as int].holder.wf());
                    assert(span_ok(old(cells).cells@[i as int].holder.current_span(), *old(host)));
                }
                {
                    let c = &mut cells.cells[i];
                    c.holder.raze(host);
                }
                proof {
                    lemma_cells_keep_others(
                        *old(cells),
                        *cells,
                        *old(host),
                        *host,
                        i as int,
                    );
                }
            },
        }
    }
}

impl Default for ViewHandle {
    /// The default handle: refers to no cell and behaves as the empty
    /// view.
    fn default() -> (h: ViewHandle)
        ensures
            h.target is None,
            forall|cells: ViewCells| h.valid(cells),
    {
        ViewHandle { target: None }
    }
}

/// After one cell's holder was driven or razed, every other cell keeps
/// its span realized and all spans stay pairwise disjoint, because the
/// drive touched only the driven holder's old primitives and fresh ones.
proof fn lemma_cells_keep_others(pre: ViewCells, post: ViewCells, h0: Host, h1: Host, i: int)
    requires
        pre.wf(),
        pre.ok(h0),
        0 <= i < pre.n(),
        post.n() == pre.n(),
        forall|j: int| 0 <= j < pre.n() && j != i ==> post.cells@[j] == pre.cells@[j],
        h0.ents@.len() <= h1.ents@.len(),
        forall|e: int|
            0 <= e < h0.ents@.len() && !ids_has(pre.span_ids_at(i), e) ==> h1.ents@[e]
                == h0.ents@[e],
        span_ok(post.holder_at(i).current_span(), h1),
        forall|e: usize|
            #[trigger] ids_has(post.span_ids_at(i), e as int) ==> ids_has(
                pre.span_ids_at(i),
                e as int,
            ) || e >= h0.ents@.len(),
    ensures
        post.ok(h1),
{
    assert forall|k: int| 0 <= k < post.n() implies span_ok(
        (#[trigger] post.cells@[k]).holder.current_span(),
        h1,
    ) by {
        if k != i {
            assert(post.cells@[k] == pre.cells@[k]);
            let s = pre.span_ids_at(k);
            assert(span_ok(pre.cells@[k].holder.current_span(), h0));
            assert forall|x: int| 0 <= x < s.len() implies h1.live(s[x]) by {
                let e = s[x];
                assert(h0.live(e));
                assert(ids_has(s, e as int)) by {
                    assert(s[x] as int == e as int);
                }
                assert(!ids_has(pre.span_ids_at(i), e as int)) by {
                    if k < i {
                        assert(ids_disjoint(pre.span_ids_at(k), pre.span_ids_at(i)));
                    } else {
                        assert(ids_disjoint(pre.span_ids_at(i), pre.span_ids_at(k)));
                        crate::view::lemma_ids_disjoint_sym(
                            pre.span_ids_at(i),
                            pre.span_ids_at(k),
                        );
                    }
                }
                assert(h1.ents@[e as int] == h0.ents@[e as int]);
            }
        }
    }
    assert forall|k1: int, k2: int| 0 <= k1 < k2 < post.n() implies ids_disjoint(
        post.span_ids_at(k1),
        post.span_ids_at(k2),
    ) by {
        if k1 != i && k2 != i {
            assert(post.cells@[k1] == pre.cells@[k1]);
            assert(post.cells@[k2] == pre.cells@[k2]);
            assert(ids_disjoint(pre.span_ids_at(k1), pre.span_ids_at(k2)));
        } else {
            let j: int = if k1 == i {
                k2
            } else {
                k1
            };
            assert(post.cells@[j] == pre.cells@[j]);
            let sj = pre.span_ids_at(j);
            assert(span_ok(pre.cells@[j].holder.current_span(), h0));
            assert(pre.span_ids_at(j) == sj);
            assert forall|e: int| #[trigger]
                ids_has(post.span_ids_at(i), e) implies !ids_has(sj, e) by {
                if ids_has(sj, e) {
                    let x = choose|x: int| 0 <= x < sj.len() && sj[x] as int == e;
                    assert(h0.live(sj[x]));
                    assert(0 <= e < h0.ents@.len());
                    let w = choose|w: int|
                        0 <= w < post.span_ids_at(i).len() && post.span_ids_at(i)[w] as int == e;
                    let ew = post.span_ids_at(i)[w];
                    assert(ids_has(post.span_ids_at(i), ew as int)) by {
                        assert(post.span_ids_at(i)[w] as int == ew as int);
                    }
                    assert(ids_has(pre.span_ids_at(i), ew as int) || ew >= h0.ents@.len());
                    if ew >= h0.ents@.len() {
                        assert(ew as int == e);
                        assert(false);
                    } else {
                        assert(ids_has(pre.span_ids_at(i), e)) by {
                            assert(ew as int == e);
                        }
                        if j < i {
                            assert(ids_disjoint(pre.span_ids_at(j), pre.span_ids_at(i)));
                            assert(false);
                        } else {
                            assert(ids_disjoint(pre.span_ids_at(i), pre.span_ids_at(j)));
                            assert(false);
                        }
                    }
                }
            }
            if k1 == i {
                assert(ids_disjoint(post.span_ids_at(k1), post.span_ids_at(k2)));
            } else {
                crate::view::lemma_ids_disjoint_sym(post.span_ids_at(i), post.span_ids_at(k1));
            }
        }
    }
}

} // verus!
