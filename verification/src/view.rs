//! The view contract, its holder, and the type-erased holder interface.
//!
//! A view is an immutable description plus an externally held retained
//! state. A holder pairs the two and walks the lifecycle
//! `Unbuilt -> Built -> Razed`: built exactly once (lazily, on the first
//! rebuild), rebuilt any number of times while built, razed at most once,
//! and inert afterwards.

use vstd::prelude::*;
use vstd::pervasive::unreached;
use crate::host::{EntityRec, Host};
use crate::span::{span_matches, NodeSpan};
use crate::tracking::Cx;

verus! {

/// No entity is listed twice in the id sequence.
pub open spec fn ids_distinct(s: Seq<usize>) -> bool {
    forall|k1: int, k2: int| 0 <= k1 < k2 < s.len() ==> s[k1] != s[k2]
}

/// A span is realized in the host: every primitive it lists is a live
/// entity, and no primitive is listed twice.
pub open spec fn span_ok(s: NodeSpan, host: Host) -> bool {
    &&& forall|k: int| 0 <= k < s.ids().len() ==> host.live(#[trigger] s.ids()[k])
    &&& ids_distinct(s.ids())
}

/// Whether entity `e` occurs in the id sequence `ids`.
pub open spec fn ids_has(ids: Seq<usize>, e: int) -> bool {
    exists|k: int| 0 <= k < ids.len() && ids[k] as int == e
}

/// No entity occurs in both id sequences: the two spans own no primitive
/// in common.
pub open spec fn ids_disjoint(a: Seq<usize>, b: Seq<usize>) -> bool {
    forall|e: int| #[trigger] ids_has(a, e) ==> !ids_has(b, e)
}

/// Disjointness is symmetric.
pub proof fn lemma_ids_disjoint_sym(a: Seq<usize>, b: Seq<usize>)
    requires
        ids_disjoint(a, b),
    ensures
        ids_disjoint(b, a),
{
    assert forall|e: int| #[trigger] ids_has(b, e) implies !ids_has(a, e) by {
        if ids_has(a, e) {
        }
    }
}

/// What a build may do to the host: allocate exactly the view's output and
/// nothing else. Every output primitive is fresh, the entity table grows by
/// exactly the output's size, and every live fresh entity belongs to the
/// output - a build cannot leak allocations.
pub open spec fn build_effect(pre: Host, post: Host, new_ids: Seq<usize>) -> bool {
    &&& post.grew_from(pre)
    &&& post.ents@.len() == pre.ents@.len() + new_ids.len()
    &&& forall|e: usize| #[trigger] ids_has(new_ids, e as int) ==> e >= pre.ents@.len()
    &&& forall|e: usize|
        pre.ents@.len() <= e && (e as int) < post.ents@.len() && post.live(e) ==> ids_has(
            new_ids,
            e as int,
        )
}

/// What a rebuild may do to the host, for a view that owned `old_ids`
/// before and owns `new_ids` after: entities outside the old output are
/// untouched, every old primitive is either kept (untouched) or destroyed
/// (never leaked), and every new primitive is either adopted from the old
/// output or freshly created.
pub open spec fn reconcile_effect(pre: Host, post: Host, old_ids: Seq<usize>, new_ids: Seq<
    usize,
>) -> bool {
    &&& pre.ents@.len() <= post.ents@.len()
    &&& post.inputs == pre.inputs
    &&& post.tick == pre.tick
    &&& forall|e: int|
        0 <= e < pre.ents@.len() && !ids_has(old_ids, e) ==> post.ents@[e] == pre.ents@[e]
    &&& forall|e: usize|
        #[trigger] ids_has(old_ids, e as int) && ids_has(new_ids, e as int) ==> post.ents@[e as int]
            == pre.ents@[e as int]
    &&& forall|e: usize|
        #[trigger] ids_has(old_ids, e as int) && !ids_has(new_ids, e as int) ==> !post.live(e)
    &&& forall|e: usize|
        #[trigger] ids_has(new_ids, e as int) && !ids_has(old_ids, e as int) ==> e
            >= pre.ents@.len()
    &&& forall|e: usize|
        pre.ents@.len() <= e && (e as int) < post.ents@.len() && post.live(e) ==> ids_has(
            new_ids,
            e as int,
        )
}

/// The per-subtree residue of a reconciliation, relative to the host as
/// it was when the whole pass began: kept primitives are untouched,
/// dropped primitives are destroyed, adopted primitives are fresh.
pub open spec fn kid_reconciled(h0: Host, h: Host, old_ids: Seq<usize>, new_ids: Seq<
    usize,
>) -> bool {
    &&& forall|e: usize|
        #[trigger] ids_has(old_ids, e as int) && ids_has(new_ids, e as int) ==> h.ents@[e as int]
            == h0.ents@[e as int]
    &&& forall|e: usize|
        #[trigger] ids_has(old_ids, e as int) && !ids_has(new_ids, e as int) ==> !h.live(e)
    &&& forall|e: usize|
        #[trigger] ids_has(new_ids, e as int) && !ids_has(old_ids, e as int) ==> e
            >= h0.ents@.len()
}

/// What attaching children does to the host: every primitive of the span
/// becomes a live child of `owner`, and nothing else changes.
pub open spec fn attach_effect(pre: Host, post: Host, ids: Seq<usize>, owner: usize) -> bool {
    &&& post.ents@.len() == pre.ents@.len()
    &&& post.inputs == pre.inputs
    &&& post.tick == pre.tick
    &&& forall|e: int| 0 <= e < pre.ents@.len() && !ids_has(ids, e) ==> post.ents@[e] == pre.ents@[e]
    &&& forall|e: usize|
        #[trigger] ids_has(ids, e as int) ==> post.ents@[e as int] == (EntityRec {
            alive: true,
            parent: Some(owner),
        })
}

/// What razing does to the host: exactly the primitives of the razed span
/// are destroyed, and every other entity is untouched.
pub open spec fn raze_effect(pre: Host, post: Host, ids: Seq<usize>) -> bool {
    &&& post.ents@.len() == pre.ents@.len()
    &&& post.inputs == pre.inputs
    &&& post.tick == pre.tick
    &&& forall|e: int| 0 <= e < pre.ents@.len() && !ids_has(ids, e) ==> post.ents@[e] == pre.ents@[e]
    &&& forall|e: usize| #[trigger] ids_has(ids, e as int) ==> !post.live(e)
}

/// An object which produces zero, one or many display primitives.
///
/// The description is immutable; the associated `State` holds everything
/// the view retains between drive cycles, and exists only between `build`
/// and `raze`.
pub trait UiView: Sized {
    /// The external retained state for this view.
    type State;

    /// The span of primitives that `state` stands for.
    spec fn spec_nodes(&self, state: &Self::State) -> NodeSpan;

    /// Structural well-formedness of the retained state.
    spec fn wf_state(&self, state: &Self::State) -> bool;

    /// The output arity this view declares under the current reactive
    /// inputs: how many primitives it produces.
    spec fn arity(&self, host: Host) -> nat;

    /// Return the span of primitives produced by this view: a pure
    /// projection of the state, callable any number of times, rendering
    /// the state's span value faithfully.
    fn nodes(&self, state: &Self::State) -> (r: NodeSpan)
        ensures
            span_matches(r, self.spec_nodes(state)),
    ;

    /// Construct the retained state, creating this view's primitives in the
    /// host. Called exactly once per holder; there is no prior state to
    /// read. The output is wholly fresh and matches the declared arity.
    fn build(&self, host: &mut Host, cx: &mut Cx) -> (s: Self::State)
        ensures
            self.wf_state(&s),
            span_ok(self.spec_nodes(&s), *final(host)),
            build_effect(*old(host), *final(host), self.spec_nodes(&s).ids()),
            self.spec_nodes(&s).ids().len() == self.arity(*final(host)),
            final(cx).owner == old(cx).owner,
            final(cx).scope.tick == old(cx).scope.tick,
    ;

    /// Re-evaluate the view against the current reactive inputs, mutating
    /// `state` in place. Returns whether the output span differs from the
    /// span before the call. Old primitives are kept or destroyed, never
    /// leaked; new primitives are adopted or fresh; entities outside the
    /// old output are untouched.
    fn rebuild(&self, host: &mut Host, cx: &mut Cx, state: &mut Self::State) -> (changed: bool)
        requires
            self.wf_state(&*old(state)),
            span_ok(self.spec_nodes(&*old(state)), *old(host)),
        ensures
            self.wf_state(&*final(state)),
            span_ok(self.spec_nodes(&*final(state)), *final(host)),
            reconcile_effect(
                *old(host),
                *final(host),
                self.spec_nodes(&*old(state)).ids(),
                self.spec_nodes(&*final(state)).ids(),
            ),
            self.spec_nodes(&*final(state)).ids().len() == self.arity(*final(host)),
            changed == (self.spec_nodes(&*final(state)).ids() != self.spec_nodes(
                &*old(state),
            ).ids()),
            final(cx).owner == old(cx).owner,
            final(cx).scope.tick == old(cx).scope.tick,
    ;

    /// Resynchronize the host parent/child relation: make every primitive
    /// of the span a child of the owning entity. Idempotent: with no
    /// intervening state change, a second call changes nothing further.
    fn attach_children(&self, host: &mut Host, cx: &mut Cx, state: &mut Self::State)
        requires
            self.wf_state(&*old(state)),
            span_ok(self.spec_nodes(&*old(state)), *old(host)),
            old(host).live(old(cx).owner),
        ensures
            self.wf_state(&*final(state)),
            self.spec_nodes(&*final(state)).ids() == self.spec_nodes(&*old(state)).ids(),
            span_ok(self.spec_nodes(&*final(state)), *final(host)),
            attach_effect(
                *old(host),
                *final(host),
                self.spec_nodes(&*old(state)).ids(),
                old(cx).owner,
            ),
            final(cx).owner == old(cx).owner,
            final(cx).scope.tick == old(cx).scope.tick,
    ;

    /// Destroy every display primitive owned transitively by `state`.
    /// Exactly the view's own primitives are despawned; everything else is
    /// untouched.
    fn raze(&self, host: &mut Host, state: &mut Self::State)
        requires
            self.wf_state(&*old(state)),
            span_ok(self.spec_nodes(&*old(state)), *old(host)),
        ensures
            raze_effect(*old(host), *final(host), self.spec_nodes(&*old(state)).ids()),
    ;
}

/// Where a holder stands in its life: not yet built, built, or razed.
#[derive(Clone, Copy, Debug, PartialEq, Eq, Structural)]
pub enum Lifecycle {
    /// No state exists yet; the first rebuild will build.
    Unbuilt,
    /// State exists; rebuilds and attaches are permitted.
    Built,
    /// Torn down, terminally: every further operation is a guarded no-op.
    Razed,
}

/// The lifecycle stage as a number, for stating monotonicity.
pub open spec fn lifecycle_rank(l: Lifecycle) -> int {
    match l {
        Lifecycle::Unbuilt => 0,
        Lifecycle::Built => 1,
        Lifecycle::Razed => 2,
    }
}

/// The transitions a rebuild may take: an unbuilt holder becomes built,
/// a built one stays built, a razed one stays razed.
pub open spec fn rebuild_step(pre: Lifecycle, post: Lifecycle) -> bool {
    match pre {
        Lifecycle::Unbuilt => post == Lifecycle::Built,
        Lifecycle::Built => post == Lifecycle::Built,
        Lifecycle::Razed => post == Lifecycle::Razed,
    }
}

/// Where a raze leaves a holder: a built holder becomes razed; razing a
/// holder that was never built, or razing twice, changes nothing.
pub open spec fn raze_target(pre: Lifecycle) -> Lifecycle {
    if pre == Lifecycle::Built {
        Lifecycle::Razed
    } else {
        pre
    }
}

/// The holder lifecycle is monotone: no operation moves a holder backwards,
/// a razed holder stays razed forever, and no holder ever returns to the
/// unbuilt stage — so a holder is built at most once.
pub proof fn lemma_lifecycle_monotonic(pre: Lifecycle, post: Lifecycle)
    requires
        rebuild_step(pre, post) || post == raze_target(pre),
    ensures
        lifecycle_rank(pre) <= lifecycle_rank(post),
        pre == Lifecycle::Razed ==> post == Lifecycle::Razed,
        post == Lifecycle::Unbuilt ==> pre == Lifecycle::Unbuilt,
{
}

/// Attaching children twice in a row, with no intervening state change,
/// produces the same host parent/child relations both times: the second
/// call leaves the host exactly as the first left it.
pub proof fn lemma_attach_children_idempotent(
    h0: Host,
    h1: Host,
    h2: Host,
    ids: Seq<usize>,
    owner: usize,
)
    requires
        attach_effect(h0, h1, ids, owner),
        attach_effect(h1, h2, ids, owner),
    ensures
        h2.ents@ == h1.ents@,
        h2.inputs == h1.inputs,
        h2.tick == h1.tick,
{
    assert forall|e: int| 0 <= e < h1.ents@.len() implies h2.ents@[e] == h1.ents@[e] by {
        if ids_has(ids, e) {
            let k = choose|k: int| 0 <= k < ids.len() && ids[k] as int == e;
            let x = ids[k];
            assert(ids_has(ids, x as int));
            assert(h1.ents@[x as int] == (EntityRec { alive: true, parent: Some(owner) }));
            assert(h2.ents@[x as int] == (EntityRec { alive: true, parent: Some(owner) }));
        }
    }
    assert(h2.ents@ =~= h1.ents@);
}

/// Combination of a [`UiView`] and its built state: the unit of ownership
/// for a subtree's retained data.
#[verifier::reject_recursive_types(S)]
pub struct ViewState<S, V: UiView<State = S>> {
    /// The immutable description.
    pub view: V,
    /// The retained state: `None` before the first build and after razing.
    pub state: Option<S>,
    /// Where this holder stands in its lifecycle.
    pub phase: Lifecycle,
}

impl<S, V: UiView<State = S>> ViewState<S, V> {
    /// Consistency of the pair: state is present exactly while built, and
    /// is then well-formed for the view.
    pub open spec fn wf(self) -> bool {
        &&& (self.phase == Lifecycle::Built) == (self.state is Some)
        &&& (self.state is Some ==> self.view.wf_state(&(self.state->0)))
    }

    /// The span this holder currently reports: the view's span while
    /// built, the empty span otherwise.
    pub open spec fn current_span(self) -> NodeSpan {
        if self.phase == Lifecycle::Built && self.state is Some {
            self.view.spec_nodes(&(self.state->0))
        } else {
            NodeSpan::Empty
        }
    }

    /// Pair `view` with no state yet: the holder starts unbuilt.
    pub fn new(view: V) -> (h: ViewState<S, V>)
        ensures
            h.view == view,
            h.phase == Lifecycle::Unbuilt,
            h.state is None,
            h.wf(),
    {
        ViewState { view, state: None, phase: Lifecycle::Unbuilt }
    }
}

/// Type-erased interface to a [`ViewState`], so heterogeneous views can be
/// stored and driven without the caller knowing the concrete view type.
pub trait AnyViewState: Sized {
    /// Structural consistency of the erased holder.
    spec fn inv(&self) -> bool;

    /// Where the holder stands in the `Unbuilt -> Built -> Razed` lifecycle.
    spec fn lifecycle_of(&self) -> Lifecycle;

    /// The span the holder currently reports.
    spec fn erased_span(&self) -> NodeSpan;

    /// The output arity the held view declares under the current reactive
    /// inputs.
    spec fn declared_arity(&self, host: Host) -> nat;

    /// Return the span of primitives produced by this view, rendering the
    /// holder's span value faithfully: exactly `NodeSpan::Empty` before the
    /// first build and after razing.
    fn nodes(&self) -> (r: NodeSpan)
        requires
            self.inv(),
        ensures
            span_matches(r, self.erased_span()),
    ;

    /// Drive the holder once: an unbuilt holder performs its one-time build
    /// (and reports a change, its output having gone from nothing to
    /// something); a built holder rebuilds; a razed holder does nothing.
    fn rebuild(&mut self, host: &mut Host, cx: &mut Cx) -> (changed: bool)
        requires
            old(self).inv(),
            span_ok(old(self).erased_span(), *old(host)),
        ensures
            final(self).inv(),
            span_ok(final(self).erased_span(), *final(host)),
            rebuild_step(old(self).lifecycle_of(), final(self).lifecycle_of()),
            reconcile_effect(
                *old(host),
                *final(host),
                old(self).erased_span().ids(),
                final(self).erased_span().ids(),
            ),
            ({
                let built = final(self).lifecycle_of() == Lifecycle::Built;
                built ==> final(self).erased_span().ids().len() == final(self).declared_arity(
                    *final(host),
                )
            }),
            forall|h: Host| #[trigger] final(self).declared_arity(h) == old(self).declared_arity(
                h,
            ),
            ({
                let was = old(self).lifecycle_of();
                let now = final(self).lifecycle_of();
                changed == (was != now || final(self).erased_span().ids() != old(
                    self,
                ).erased_span().ids())
            }),
            ({
                let noop = old(self).lifecycle_of() == Lifecycle::Razed;
                noop ==> *final(self) == *old(self) && *final(host) == *old(host)
            }),
            final(cx).owner == old(cx).owner,
            final(cx).scope.tick == old(cx).scope.tick,
    ;

    /// Tear the holder down, at most once: a built holder destroys exactly
    /// its own primitives and becomes razed, terminally; razing a holder
    /// that is unbuilt or already razed changes nothing at all.
    fn raze(&mut self, host: &mut Host)
        requires
            old(self).inv(),
            span_ok(old(self).erased_span(), *old(host)),
        ensures
            final(self).inv(),
            final(self).lifecycle_of() == raze_target(old(self).lifecycle_of()),
            final(self).erased_span() == NodeSpan::Empty,
            raze_effect(*old(host), *final(host), old(self).erased_span().ids()),
            ({
                let noop = old(self).lifecycle_of() != Lifecycle::Built;
                noop ==> *final(self) == *old(self) && *final(host) == *old(host)
            }),
    ;
}

impl<S, V: UiView<State = S>> AnyViewState for ViewState<S, V> {
    open spec fn inv(&self) -> bool {
        self.wf()
    }

    open spec fn lifecycle_of(&self) -> Lifecycle {
        self.phase
    }

    open spec fn erased_span(&self) -> NodeSpan {
        self.current_span()
    }

    open spec fn declared_arity(&self, host: Host) -> nat {
        self.view.arity(host)
    }

    fn nodes(&self) -> (r: NodeSpan) {
        match self.phase {
            Lifecycle::Built => match &self.state {
                Some(st) => self.view.nodes(st),
                None => unreached(),
            },
            _ => NodeSpan::Empty,
        }
    }

    fn rebuild(&mut self, host: &mut Host, cx: &mut Cx) -> (changed: bool) {
        match self.phase {
            Lifecycle::Unbuilt => {
                let s = self.view.build(host, cx);
                self.state = Some(s);
                self.phase = Lifecycle::Built;
                true
            },
            Lifecycle::Built => match self.state.as_mut() {
                Some(st) => self.view.rebuild(host, cx, st),
                None => unreached(),
            },
            Lifecycle::Razed => false,
        }
    }

    fn raze(&mut self, host: &mut Host) {
        match self.phase {
            Lifecycle::Built => {
                match self.state.as_mut() {
                    Some(st) => {
                        self.view.raze(host, st);
                    },
                    None => unreached(),
                }
                self.state = None;
                self.phase = Lifecycle::Razed;
            },
            _ => {},
        }
    }
}

/// A view which renders nothing, permanently: its span is always empty,
/// its rebuild is a permanent no-op reporting no change, and its raze does
/// nothing. Used as the placeholder for "no child here".
pub struct EmptyView;

impl AnyViewState for EmptyView {
    open spec fn inv(&self) -> bool {
        true
    }

    open spec fn lifecycle_of(&self) -> Lifecycle {
        Lifecycle::Razed
    }

    open spec fn erased_span(&self) -> NodeSpan {
        NodeSpan::Empty
    }

    open spec fn declared_arity(&self, host: Host) -> nat {
        0
    }

    fn nodes(&self) -> (r: NodeSpan) {
        NodeSpan::Empty
    }

    fn rebuild(&mut self, host: &mut Host, cx: &mut Cx) -> (changed: bool) {
        false
    }

    fn raze(&mut self, host: &mut Host) {
    }
}

} // verus!
