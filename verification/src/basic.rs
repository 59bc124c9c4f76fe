//! A built-in family of concrete views.
//!
//! These are the primitive-producing components the engine ships with: a
//! view that renders nothing, a view that owns exactly one display
//! primitive, and a view whose primitive count follows a reactive input.
//! Each is an ordinary [`UiView`] implementation, and together they
//! exercise every arity a span can take.

use vstd::prelude::*;
use crate::host::Host;
use crate::span::{eq_id_vecs, NodeSpan};
use crate::tracking::Cx;
use crate::view::{
    attach_effect,
    build_effect,
    ids_disjoint,
    ids_distinct,
    ids_has,
    kid_reconciled,
    raze_effect,
    reconcile_effect,
    span_ok,
    UiView,
};

verus! {

/// The description of a built-in view.
#[derive(Debug)]
pub enum BasicView {
    /// Renders nothing: its span is always empty.
    Blank,
    /// Owns exactly one display primitive.
    Prim,
    /// Owns as many display primitives as the named reactive input says.
    Counted(usize),
    /// Aggregates an ordered row of child views; its span is the
    /// concatenation of the children's spans.
    Group(Vec<BasicView>),
}

/// The retained state of a built-in view: the primitives it owns.
#[derive(Debug)]
pub enum BasicState {
    /// No primitives.
    BlankState,
    /// The one primitive owned.
    PrimState(usize),
    /// The primitives owned, in order.
    CountedState(Vec<usize>),
    /// The children's retained states, and the cached concatenation of
    /// their primitives.
    GroupState(Vec<BasicState>, Vec<usize>),
}

/// The ordered primitives a state stands for.
pub open spec fn state_ids(s: BasicState) -> Seq<usize> {
    match s {
        BasicState::BlankState => Seq::empty(),
        BasicState::PrimState(e) => seq![e],
        BasicState::CountedState(v) => v@,
        BasicState::GroupState(_, all) => all@,
    }
}

/// The span a state stands for. The variant follows the kind of view, not
/// the momentary count: a view that statically renders nothing reports
/// `Empty`, one that statically owns one primitive reports `Single`, and a
/// view whose output is dynamic (input-driven or composite) reports a
/// `Sequence` whatever its current length.
pub open spec fn state_span(s: BasicState) -> NodeSpan {
    match s {
        BasicState::BlankState => NodeSpan::Empty,
        BasicState::PrimState(e) => NodeSpan::Single(e),
        BasicState::CountedState(v) => NodeSpan::Sequence(v),
        BasicState::GroupState(_, all) => NodeSpan::Sequence(all),
    }
}

/// The state shape matches the description. For a group: one child state
/// per child view, each well-formed, and the cached span is exactly the
/// concatenation of the children's primitives.
pub open spec fn basic_wf(d: BasicView, s: BasicState) -> bool
    decreases d,
{
    match d {
        BasicView::Blank => s is BlankState,
        BasicView::Prim => s is PrimState,
        BasicView::Counted(_) => s is CountedState,
        BasicView::Group(cs) => s matches BasicState::GroupState(kids, all) && {
            &&& kids@.len() == cs@.len()
            &&& forall|k: int| 0 <= k < cs@.len() ==> basic_wf(#[trigger] cs@[k], kids@[k])
            &&& all@ == kids_ids(kids@)
        },
    }
}

/// The output arity a description declares under the current inputs.
pub open spec fn basic_arity(d: BasicView, host: Host) -> nat
    decreases d,
{
    match d {
        BasicView::Blank => 0,
        BasicView::Prim => 1,
        BasicView::Counted(i) => host.input_val(i) as nat,
        BasicView::Group(cs) => group_arity(cs@, host),
    }
}

/// The ordered concatenation of the primitives of a row of child states.
pub open spec fn kids_ids(kids: Seq<BasicState>) -> Seq<usize>
    decreases kids.len(),
{
    if kids.len() == 0 {
        Seq::empty()
    } else {
        state_ids(kids[0]) + kids_ids(kids.drop_first())
    }
}

/// The summed output arity of a row of child descriptions.
pub open spec fn group_arity(cs: Seq<BasicView>, host: Host) -> nat
    decreases cs,
{
    if cs.len() == 0 {
        0
    } else {
        basic_arity(cs[0], host) + group_arity(cs.drop_first(), host)
    }
}

/// Concatenation peeled from the back: one more child's contribution.
pub proof fn lemma_kids_ids_push(kids: Seq<BasicState>, s: BasicState)
    ensures
        kids_ids(kids.push(s)) == kids_ids(kids) + state_ids(s),
    decreases kids.len(),
{
    if kids.len() == 0 {
        let p = kids.push(s);
        assert(p[0] == s);
        assert(p.drop_first() =~= Seq::<BasicState>::empty());
        assert(kids_ids(p.drop_first()) =~= Seq::<usize>::empty());
        assert(kids_ids(kids.push(s)) =~= kids_ids(kids) + state_ids(s));
    } else {
        assert(kids.push(s).drop_first() =~= kids.drop_first().push(s));
        lemma_kids_ids_push(kids.drop_first(), s);
        assert(kids_ids(kids.push(s)) =~= kids_ids(kids) + state_ids(s));
    }
}

/// A child's primitives all occur in the row's concatenation.
pub proof fn lemma_kids_ids_member(kids: Seq<BasicState>, k: int)
    requires
        0 <= k < kids.len(),
    ensures
        forall|e: int| #[trigger]
            ids_has(state_ids(kids[k]), e) ==> ids_has(kids_ids(kids), e),
    decreases kids.len(),
{
    assert forall|e: int| #[trigger]
        ids_has(state_ids(kids[k]), e) implies ids_has(kids_ids(kids), e) by {
        let h = state_ids(kids[0]);
        let t = kids_ids(kids.drop_first());
        if k == 0 {
            let x = choose|x: int| 0 <= x < h.len() && h[x] as int == e;
            assert((h + t)[x] as int == e);
            assert(ids_has(kids_ids(kids), e));
        } else {
            lemma_kids_ids_member(kids.drop_first(), k - 1);
            assert(kids.drop_first()[k - 1] == kids[k]);
            assert(ids_has(t, e));
            let x = choose|x: int| 0 <= x < t.len() && t[x] as int == e;
            assert((h + t)[h.len() + x] as int == e);
            assert(ids_has(kids_ids(kids), e));
        }
    }
}

/// Conversely, every primitive of the concatenation belongs to a child.
pub proof fn lemma_kids_ids_member_inv(kids: Seq<BasicState>, e: int)
    requires
        ids_has(kids_ids(kids), e),
    ensures
        exists|k: int|
            0 <= k < kids.len() && #[trigger] ids_has(state_ids(kids[k]), e),
    decreases kids.len(),
{
    let h = state_ids(kids[0]);
    let t = kids_ids(kids.drop_first());
    let x = choose|x: int| 0 <= x < kids_ids(kids).len() && kids_ids(kids)[x] as int == e;
    if x < h.len() {
        assert(h[x] == (h + t)[x]);
        assert(ids_has(state_ids(kids[0]), e));
    } else {
        assert(t[x - h.len()] == (h + t)[x]);
        assert(ids_has(t, e));
        lemma_kids_ids_member_inv(kids.drop_first(), e);
        let k = choose|k: int|
            0 <= k < kids.drop_first().len() && #[trigger] ids_has(
                state_ids(kids.drop_first()[k]),
                e,
            );
        assert(kids.drop_first()[k] == kids[k + 1]);
        assert(ids_has(state_ids(kids[k + 1]), e));
    }
}

/// Rows whose children own the same primitives concatenate to the same
/// sequence.
pub proof fn lemma_kids_ids_congruent(a: Seq<BasicState>, b: Seq<BasicState>)
    requires
        a.len() == b.len(),
        forall|k: int| 0 <= k < a.len() ==> state_ids(#[trigger] a[k]) == state_ids(b[k]),
    ensures
        kids_ids(a) == kids_ids(b),
    decreases a.len(),
{
    if a.len() > 0 {
        assert forall|k: int|
            0 <= k < a.drop_first().len() implies state_ids(#[trigger] a.drop_first()[k])
            == state_ids(b.drop_first()[k]) by {
            assert(a.drop_first()[k] == a[k + 1]);
            assert(b.drop_first()[k] == b[k + 1]);
        }
        lemma_kids_ids_congruent(a.drop_first(), b.drop_first());
    }
}

/// Splitting a distinct concatenation: both halves are distinct and they
/// are disjoint.
pub proof fn lemma_add_distinct(a: Seq<usize>, b: Seq<usize>)
    requires
        ids_distinct(a + b),
    ensures
        ids_distinct(a),
        ids_distinct(b),
        ids_disjoint(a, b),
        ids_disjoint(b, a),
{
    assert forall|k1: int, k2: int| 0 <= k1 < k2 < a.len() implies a[k1] != a[k2] by {
        assert((a + b)[k1] == a[k1]);
        assert((a + b)[k2] == a[k2]);
    }
    assert forall|k1: int, k2: int| 0 <= k1 < k2 < b.len() implies b[k1] != b[k2] by {
        assert((a + b)[a.len() + k1] == b[k1]);
        assert((a + b)[a.len() + k2] == b[k2]);
    }
    assert forall|e: int| #[trigger] ids_has(a, e) implies !ids_has(b, e) by {
        if ids_has(b, e) {
            let i = choose|i: int| 0 <= i < a.len() && a[i] as int == e;
            let j = choose|j: int| 0 <= j < b.len() && b[j] as int == e;
            assert((a + b)[i] == a[i]);
            assert((a + b)[a.len() + j] == b[j]);
        }
    }
    crate::view::lemma_ids_disjoint_sym(a, b);
}

/// Joining: a concatenation of two distinct, disjoint halves is distinct.
pub proof fn lemma_add_distinct_join(a: Seq<usize>, b: Seq<usize>)
    requires
        ids_distinct(a),
        ids_distinct(b),
        ids_disjoint(a, b),
    ensures
        ids_distinct(a + b),
{
    assert forall|k1: int, k2: int| 0 <= k1 < k2 < (a + b).len() implies (a + b)[k1] != (a
        + b)[k2] by {
        if k2 < a.len() {
            assert((a + b)[k1] == a[k1]);
            assert((a + b)[k2] == a[k2]);
        } else if k1 >= a.len() {
            assert((a + b)[k1] == b[k1 - a.len()]);
            assert((a + b)[k2] == b[k2 - a.len()]);
        } else {
            assert((a + b)[k1] == a[k1]);
            assert((a + b)[k2] == b[k2 - a.len()]);
            if (a + b)[k1] == (a + b)[k2] {
                assert(ids_has(a, a[k1] as int));
                assert(ids_has(b, a[k1] as int)) by {
                    assert(b[k2 - a.len()] as int == a[k1] as int);
                }
            }
        }
    }
}

/// A distinct concatenation means every child's own primitives are
/// distinct and the children are pairwise disjoint.
pub proof fn lemma_concat_distinct_parts(kids: Seq<BasicState>)
    requires
        ids_distinct(kids_ids(kids)),
    ensures
        forall|k: int| 0 <= k < kids.len() ==> ids_distinct(state_ids(#[trigger] kids[k])),
        forall|k1: int, k2: int|
            0 <= k1 < k2 < kids.len() ==> ids_disjoint(
                state_ids(kids[k1]),
                state_ids(kids[k2]),
            ),
    decreases kids.len(),
{
    if kids.len() > 0 {
        let h = state_ids(kids[0]);
        let t = kids_ids(kids.drop_first());
        lemma_add_distinct(h, t);
        lemma_concat_distinct_parts(kids.drop_first());
        assert forall|k: int|
            0 <= k < kids.len() implies ids_distinct(state_ids(#[trigger] kids[k])) by {
            if k > 0 {
                assert(kids.drop_first()[k - 1] == kids[k]);
            }
        }
        assert forall|k1: int, k2: int| 0 <= k1 < k2 < kids.len() implies ids_disjoint(
            state_ids(kids[k1]),
            state_ids(kids[k2]),
        ) by {
            if k1 == 0 {
                assert(kids.drop_first()[k2 - 1] == kids[k2]);
                lemma_kids_ids_member(kids.drop_first(), k2 - 1);
                assert forall|e: int| #[trigger]
                    ids_has(state_ids(kids[0]), e) implies !ids_has(
                    state_ids(kids[k2]),
                    e,
                ) by {
                    if ids_has(state_ids(kids[k2]), e) {
                        assert(ids_has(t, e));
                    }
                }
            } else {
                assert(kids.drop_first()[k1 - 1] == kids[k1]);
                assert(kids.drop_first()[k2 - 1] == kids[k2]);
            }
        }
    }
}

/// And conversely: distinct, pairwise-disjoint children concatenate to a
/// distinct sequence.
pub proof fn lemma_concat_distinct_join(kids: Seq<BasicState>)
    requires
        forall|k: int| 0 <= k < kids.len() ==> ids_distinct(state_ids(#[trigger] kids[k])),
        forall|k1: int, k2: int|
            0 <= k1 < k2 < kids.len() ==> ids_disjoint(
                state_ids(kids[k1]),
                state_ids(kids[k2]),
            ),
    ensures
        ids_distinct(kids_ids(kids)),
    decreases kids.len(),
{
    if kids.len() > 0 {
        let h = state_ids(kids[0]);
        let t = kids_ids(kids.drop_first());
        assert forall|k1: int, k2: int|
            0 <= k1 < k2 < kids.drop_first().len() implies ids_disjoint(
            state_ids(kids.drop_first()[k1]),
            state_ids(kids.drop_first()[k2]),
        ) by {
            assert(kids.drop_first()[k1] == kids[k1 + 1]);
            assert(kids.drop_first()[k2] == kids[k2 + 1]);
        }
        assert forall|k: int| 0 <= k < kids.drop_first().len() implies ids_distinct(
            state_ids(#[trigger] kids.drop_first()[k]),
        ) by {
            assert(kids.drop_first()[k] == kids[k + 1]);
        }
        lemma_concat_distinct_join(kids.drop_first());
        assert forall|e: int| #[trigger] ids_has(h, e) implies !ids_has(t, e) by {
            if ids_has(t, e) {
                lemma_kids_ids_member_inv(kids.drop_first(), e);
                let k = choose|k: int|
                    0 <= k < kids.drop_first().len() && #[trigger] ids_has(
                        state_ids(kids.drop_first()[k]),
                        e,
                    );
                assert(kids.drop_first()[k] == kids[k + 1]);
                assert(ids_disjoint(state_ids(kids[0]), state_ids(kids[k + 1])));
            }
        }
        lemma_add_distinct_join(h, t);
    }
}

/// When each child's output matches its declared arity, the row's
/// concatenated output matches the summed arity.
pub proof fn lemma_kids_ids_len_arity(cs: Seq<BasicView>, kids: Seq<BasicState>, host: Host)
    requires
        cs.len() == kids.len(),
        forall|k: int|
            0 <= k < cs.len() ==> state_ids(#[trigger] kids[k]).len() == basic_arity(
                cs[k],
                host,
            ),
    ensures
        kids_ids(kids).len() == group_arity(cs, host),
    decreases cs.len(),
{
    if cs.len() > 0 {
        assert forall|k: int|
            0 <= k < cs.drop_first().len() implies state_ids(
            #[trigger] kids.drop_first()[k],
        ).len() == basic_arity(cs.drop_first()[k], host) by {
            assert(kids.drop_first()[k] == kids[k + 1]);
            assert(cs.drop_first()[k] == cs[k + 1]);
        }
        lemma_kids_ids_len_arity(cs.drop_first(), kids.drop_first(), host);
    }
}

/// Arity depends on the reactive inputs alone, never on the entities.
pub proof fn lemma_arity_inputs_stable(d: BasicView, h1: Host, h2: Host)
    requires
        h1.inputs == h2.inputs,
    ensures
        basic_arity(d, h1) == basic_arity(d, h2),
    decreases d,
{
    match d {
        BasicView::Group(cs) => {
            assert(decreases_to!(d => cs));
            lemma_group_arity_inputs_stable(cs@, h1, h2);
        },
        _ => {},
    }
}

/// The summed arity of a row depends on the inputs alone.
pub proof fn lemma_group_arity_inputs_stable(cs: Seq<BasicView>, h1: Host, h2: Host)
    requires
        h1.inputs == h2.inputs,
    ensures
        group_arity(cs, h1) == group_arity(cs, h2),
    decreases cs,
{
    if cs.len() > 0 {
        lemma_arity_inputs_stable(cs[0], h1, h2);
        lemma_group_arity_inputs_stable(cs.drop_first(), h1, h2);
    }
}

impl UiView for BasicView {
    type State = BasicState;

    open spec fn spec_nodes(&self, state: &BasicState) -> NodeSpan {
        state_span(*state)
    }

    open spec fn wf_state(&self, state: &BasicState) -> bool {
        basic_wf(*self, *state)
    }

    open spec fn arity(&self, host: Host) -> nat {
        basic_arity(*self, host)
    }

    fn nodes(&self, state: &BasicState) -> (r: NodeSpan) {
        match state {
            BasicState::BlankState => NodeSpan::Empty,
            BasicState::PrimState(e) => NodeSpan::Single(*e),
            BasicState::CountedState(v) => NodeSpan::Sequence(v.clone()),
            BasicState::GroupState(_, all) => NodeSpan::Sequence(all.clone()),
        }
    }

    fn build(&self, host: &mut Host, cx: &mut Cx) -> (s: BasicState) {
        self.build_rec(host, cx)
    }

    fn rebuild(&self, host: &mut Host, cx: &mut Cx, state: &mut BasicState) -> (changed: bool) {
        self.rebuild_rec(host, cx, state)
    }

    fn attach_children(&self, host: &mut Host, cx: &mut Cx, state: &mut BasicState) {
        self.attach_rec(host, cx, state)
    }

    fn raze(&self, host: &mut Host, state: &mut BasicState) {
        self.raze_rec(host, state)
    }
}


impl BasicView {
    /// Recursive worker for [`UiView::build`].
    #[verifier::loop_isolation(false)]
    fn build_rec(&self, host: &mut Host, cx: &mut Cx) -> (s: BasicState)
        ensures
            basic_wf(*self, s),
            span_ok(state_span(s), *final(host)),
            build_effect(*old(host), *final(host), state_ids(s)),
            state_ids(s).len() == basic_arity(*self, *final(host)),
            final(cx).owner == old(cx).owner,
            final(cx).scope.tick == old(cx).scope.tick,
        decreases *self,
    {
        match self {
            BasicView::Blank => BasicState::BlankState,
            BasicView::Prim => {
                let e = host.spawn();
                proof {
                    assert(state_ids(BasicState::PrimState(e)) == seq![e]);
                    assert forall|x: usize|
                        old(host).ents@.len() <= x && (x as int) < host.ents@.len()
                            && host.live(x) implies ids_has(seq![e], x as int) by {
                        assert(seq![e][0] as int == x as int);
                    }
                }
                BasicState::PrimState(e)
            },
            BasicView::Counted(i) => {
                let n = cx.read_input(host, *i);
                let v = spawn_fresh(host, n);
                BasicState::CountedState(v)
            },
            BasicView::Group(cs) => {
                let ghost h0 = *old(host);
                let mut kids: Vec<BasicState> = Vec::new();
                let mut all: Vec<usize> = Vec::new();
                let mut i: usize = 0;
                proof {
                    assert(kids_ids(kids@) =~= Seq::<usize>::empty());
                }
                while i < cs.len()
                    invariant
                        i <= cs@.len(),
                        kids@.len() == i,
                        host.grew_from(h0),
                        cx.owner == old(cx).owner,
                        cx.scope.tick == old(cx).scope.tick,
                        forall|k: int| 0 <= k < i ==> basic_wf(cs@[k], #[trigger] kids@[k]),
                        all@ == kids_ids(kids@),
                        forall|x: int|
                            0 <= x < all@.len() ==> h0.ents@.len() <= #[trigger] all@[x] && (
                            all@[x] as int) < host.ents@.len() && host.live(all@[x]),
                        ids_distinct(all@),
                        host.ents@.len() == h0.ents@.len() + all@.len(),
                        forall|e: usize|
                            h0.ents@.len() <= e && (e as int) < host.ents@.len() && host.live(e)
                                ==> ids_has(all@, e as int),
                        forall|k: int|
                            0 <= k < i ==> state_ids(#[trigger] kids@[k]).len() == basic_arity(
                                cs@[k],
                                *host,
                            ),
                    decreases cs@.len() - i,
                {
                    let ghost h_pre = *host;
                    let ghost kids_pre = kids@;
                    let ghost all_pre = all@;
                    proof {
                        assert(*self == BasicView::Group(*cs));
                        assert(decreases_to!(*self => (*self)->Group_0));
                        assert((*self)->Group_0 == *cs);
                        assert(decreases_to!(*cs => cs@));
                                                assert(decreases_to!(cs@ => cs@[i as int]));
                    }
                    let st = (&cs[i]).build_rec(host, cx);
                    let mut part = state_ids_vec(&st);
                    let ghost part_ids = part@;
                    all.append(&mut part);
                    kids.push(st);
                    proof {
                        let stg = kids@[i as int];
                        assert(kids@ =~= kids_pre.push(stg));
                        lemma_kids_ids_push(kids_pre, stg);
                        assert(all@ =~= all_pre + part_ids);
                        assert(all@ == kids_ids(kids@));
                        assert forall|x: int|
                            0 <= x < all@.len() implies h0.ents@.len() <= #[trigger] all@[x] && (
                        all@[x] as int) < host.ents@.len() && host.live(all@[x]) by {
                            if x < all_pre.len() {
                                assert(all@[x] == all_pre[x]);
                                assert(host.ents@[all_pre[x] as int] == h_pre.ents@[all_pre[x] as int]);
                            } else {
                                let y = x - all_pre.len();
                                assert(all@[x] == part_ids[y]);
                                assert(state_span(stg).ids() == part_ids);
                                assert(host.live(state_span(stg).ids()[y]));
                                assert(ids_has(part_ids, part_ids[y] as int)) by {
                                    assert(part_ids[y] as int == part_ids[y] as int);
                                }
                                assert(part_ids[y] >= h_pre.ents@.len());
                            }
                        }
                        assert forall|x1: int, x2: int|
                            0 <= x1 < x2 < all@.len() implies all@[x1] != all@[x2] by {
                            if x2 < all_pre.len() {
                                assert(all@[x1] == all_pre[x1]);
                                assert(all@[x2] == all_pre[x2]);
                            } else if x1 >= all_pre.len() {
                                assert(all@[x1] == part_ids[x1 - all_pre.len()]);
                                assert(all@[x2] == part_ids[x2 - all_pre.len()]);
                                assert(state_span(stg).ids() == part_ids);
                                assert(ids_distinct(part_ids));
                            } else {
                                assert(all@[x1] == all_pre[x1]);
                                assert(all@[x2] == part_ids[x2 - all_pre.len()]);
                                assert(all_pre[x1] < h_pre.ents@.len());
                                assert(ids_has(part_ids, part_ids[x2 - all_pre.len()] as int)) by {
                                    let y = x2 - all_pre.len();
                                    assert(part_ids[y] as int == part_ids[y] as int);
                                }
                                assert(part_ids[x2 - all_pre.len()] >= h_pre.ents@.len());
                            }
                        }
                        assert forall|k: int|
                            0 <= k < i + 1 implies state_ids(#[trigger] kids@[k]).len()
                            == basic_arity(cs@[k], *host) by {
                            if k < i {
                                assert(kids@[k] == kids_pre[k]);
                                lemma_arity_inputs_stable(cs@[k], h_pre, *host);
                            } else {
                                assert(kids@[k] == stg);
                            }
                        }
                        assert forall|e: usize|
                            h0.ents@.len() <= e && (e as int) < host.ents@.len() && host.live(
                                e,
                            ) implies ids_has(all@, e as int) by {
                            if (e as int) < h_pre.ents@.len() {
                                assert(host.ents@[e as int] == h_pre.ents@[e as int]);
                                assert(h_pre.live(e));
                                assert(ids_has(all_pre, e as int));
                                let k = choose|k: int|
                                    0 <= k < all_pre.len() && all_pre[k] as int == e as int;
                                assert(all@[k] as int == e as int);
                                assert(ids_has(all@, e as int));
                            } else {
                                assert(ids_has(part_ids, e as int));
                                let k = choose|k: int|
                                    0 <= k < part_ids.len() && part_ids[k] as int == e as int;
                                assert(all@[all_pre.len() + k] as int == e as int);
                                assert(ids_has(all@, e as int));
                            }
                        }
                    }
                    i = i + 1;
                }
                let ghost alls = all@;
                let ghost kidsg = kids@;
                let s = BasicState::GroupState(kids, all);
                proof {
                    assert(state_ids(s) == alls);
                    assert(basic_wf(*self, s));
                    assert forall|x: int|
                        0 <= x < state_span(s).ids().len() implies host.live(
                        state_span(s).ids()[x],
                    ) by {
                        assert(state_span(s).ids()[x] == alls[x]);
                        assert(host.live(alls[x]));
                    }
                    assert forall|e: usize| #[trigger]
                        ids_has(state_ids(s), e as int) implies e >= h0.ents@.len() by {
                        let x = choose|x: int| 0 <= x < alls.len() && alls[x] as int == e as int;
                        assert(alls[x] >= h0.ents@.len());
                    }
                    assert forall|e: usize|
                        h0.ents@.len() <= e && (e as int) < host.ents@.len() && host.live(
                            e,
                        ) implies ids_has(state_ids(s), e as int) by {
                        assert(ids_has(alls, e as int));
                    }
                    lemma_kids_ids_len_arity(cs@, kidsg, *host);
                }
                s
            },
        }
    }

    /// Recursive worker for [`UiView::rebuild`].
    #[verifier::loop_isolation(false)]
    fn rebuild_rec(&self, host: &mut Host, cx: &mut Cx, state: &mut BasicState) -> (changed:
        bool)
        requires
            basic_wf(*self, *old(state)),
            span_ok(state_span(*old(state)), *old(host)),
        ensures
            basic_wf(*self, *final(state)),
            span_ok(state_span(*final(state)), *final(host)),
            reconcile_effect(
                *old(host),
                *final(host),
                state_ids(*old(state)),
                state_ids(*final(state)),
            ),
            state_ids(*final(state)).len() == basic_arity(*self, *final(host)),
            changed == (state_ids(*final(state)) != state_ids(*old(state))),
            final(cx).owner == old(cx).owner,
            final(cx).scope.tick == old(cx).scope.tick,
        decreases *self,
    {
        match self {
            BasicView::Blank => false,
            BasicView::Prim => false,
            BasicView::Counted(i) => {
                let n = cx.read_input(host, *i);
                match state {
                    BasicState::CountedState(v) => {
                        proof {
                            let s0 = state_span(*old(state));
                            assert(s0.ids() == v@);
                            assert forall|k: int| 0 <= k < v@.len() implies old(host).live(
                                #[trigger] v@[k],
                            ) by {
                                assert(old(host).live(s0.ids()[k]));
                            }
                            assert forall|k1: int, k2: int|
                                0 <= k1 < k2 < v@.len() implies v@[k1] != v@[k2] by {
                                assert(s0.ids()[k1] != s0.ids()[k2]);
                            }
                        }
                        if n == v.len() {
                            false
                        } else {
                            despawn_all(host, v);
                            let nv = spawn_fresh(host, n);
                            let ghost nvv = nv@;
                            proof {
                                assert(nvv.len() != old(state)->CountedState_0@.len());
                                assert(nvv != old(state)->CountedState_0@);
                            }
                            *v = nv;
                            proof {
                                assert(v@ == nvv);
                                assert(state_span(*state).ids() == v@);
                                assert forall|k: int|
                                    0 <= k < v@.len() implies host.live(
                                    state_span(*state).ids()[k],
                                ) by {
                                    assert(host.live(nvv[k]));
                                }
                                assert forall|k1: int, k2: int|
                                    0 <= k1 < k2 < v@.len() implies state_span(*state).ids()[k1]
                                    != state_span(*state).ids()[k2] by {
                                    assert(nvv[k1] != nvv[k2]);
                                }
                                assert(state_ids(*state) == nvv);
                                assert forall|e: usize|
                                    old(host).ents@.len() <= e && (e as int)
                                        < host.ents@.len() implies ids_has(
                                    state_ids(*state),
                                    e as int,
                                ) by {
                                    assert(ids_has(nvv, e as int));
                                }
                            }
                            true
                        }
                    },
                    _ => vstd::pervasive::unreached(),
                }
            },
            BasicView::Group(cs) => match state {
                BasicState::GroupState(kids, all) => {
                    let ghost h0 = *old(host);
                    let ghost kids0 = kids@;
                    let ghost all0 = all@;
                    proof {
                        assert(all0 == kids_ids(kids0));
                        assert(state_span(*old(state)).ids() == all0);
                        assert(ids_distinct(all0));
                        lemma_concat_distinct_parts(kids0);
                        assert forall|k: int| 0 <= k < kids0.len() implies span_ok(
                            state_span(#[trigger] kids0[k]),
                            h0,
                        ) by {
                            lemma_kids_ids_member(kids0, k);
                            let sk = state_ids(kids0[k]);
                            assert forall|x: int| 0 <= x < sk.len() implies h0.live(
                                state_span(kids0[k]).ids()[x],
                            ) by {
                                let e = sk[x];
                                assert(ids_has(sk, e as int)) by {
                                    assert(sk[x] as int == e as int);
                                }
                                assert(ids_has(all0, e as int));
                                let w = choose|w: int|
                                    0 <= w < all0.len() && all0[w] as int == e as int;
                                assert(state_span(*old(state)).ids()[w] == all0[w]);
                                assert(h0.live(all0[w]));
                                assert(state_span(kids0[k]).ids()[x] == e);
                            }
                        }
                        assert forall|k: int, e: int|
                            0 <= k < kids0.len() && #[trigger] ids_has(
                                state_ids(kids0[k]),
                                e,
                            ) implies 0 <= e < h0.ents@.len() && h0.ents@[e] == h0.ents@[e] by {
                            lemma_kids_ids_member(kids0, k);
                            assert(ids_has(all0, e));
                            let w = choose|w: int| 0 <= w < all0.len() && all0[w] as int == e;
                            assert(state_span(*old(state)).ids()[w] == all0[w]);
                            assert(h0.live(all0[w]));
                        }
                    }
                    let mut i: usize = 0;
                    while i < cs.len()
                        invariant
                            i <= cs@.len(),
                            cs@.len() == kids0.len(),
                            kids@.len() == kids0.len(),
                            all@ == all0,
                            all0 == kids_ids(kids0),
                            ids_distinct(all0),
                            forall|k: int|
                                i <= k < kids0.len() ==> #[trigger] kids@[k] == kids0[k],
                            forall|k: int|
                                0 <= k < kids0.len() ==> basic_wf(
                                    cs@[k],
                                    #[trigger] kids@[k],
                                ),
                            h0.ents@.len() <= host.ents@.len(),
                            host.inputs == h0.inputs,
                            host.tick == h0.tick,
                            cx.owner == old(cx).owner,
                            cx.scope.tick == old(cx).scope.tick,
                            forall|e: int|
                                0 <= e < h0.ents@.len() && !ids_has(all0, e)
                                    ==> host.ents@[e] == h0.ents@[e],
                            forall|k: int|
                                0 <= k < kids0.len() ==> span_ok(
                                    state_span(#[trigger] kids@[k]),
                                    *host,
                                ),
                            forall|k: int|
                                0 <= k < i ==> kid_reconciled(
                                    h0,
                                    *host,
                                    state_ids(kids0[k]),
                                    state_ids(#[trigger] kids@[k]),
                                ),
                            forall|k1: int, k2: int|
                                0 <= k1 < k2 < kids0.len() ==> ids_disjoint(
                                    state_ids(kids@[k1]),
                                    state_ids(kids@[k2]),
                                ),
                            forall|k: int, e: int|
                                i <= k < kids0.len() && #[trigger] ids_has(
                                    state_ids(kids0[k]),
                                    e,
                                ) ==> 0 <= e < h0.ents@.len() && host.ents@[e] == h0.ents@[e],
                            forall|e: usize|
                                h0.ents@.len() <= e && (e as int) < host.ents@.len()
                                    && #[trigger] host.live(e) ==> exists|k: int|
                                    0 <= k < kids@.len() && ids_has(
                                        state_ids(#[trigger] kids@[k]),
                                        e as int,
                                    ),
                            forall|k: int|
                                0 <= k < i ==> state_ids(#[trigger] kids@[k]).len()
                                    == basic_arity(cs@[k], *host),
                        decreases cs@.len() - i,
                    {
                        let ghost h_pre = *host;
                        let ghost kids_pre = kids@;
                        proof {
                            assert(*self == BasicView::Group(*cs));
                        assert(decreases_to!(*self => (*self)->Group_0));
                        assert((*self)->Group_0 == *cs);
                        assert(decreases_to!(*cs => cs@));
                                                        assert(decreases_to!(cs@ => cs@[i as int]));
                            assert(kids_pre[i as int] == kids0[i as int]);
                        }
                        // the group computes its own change report by comparing
                        // spans, so the child's report is not needed here
                        let _ = {
                            let kref = &mut kids[i];
                            (&cs[i]).rebuild_rec(host, cx, kref)
                        };
                        proof {
                            let old_i = state_ids(kids0[i as int]);
                            let new_i = state_ids(kids@[i as int]);
                            lemma_kids_ids_member(kids0, i as int);
                            lemma_concat_distinct_parts(kids0);
                            // entities outside the whole old span are untouched
                            assert forall|e: int|
                                0 <= e < h0.ents@.len() && !ids_has(all0, e) implies host.ents@[e]
                                == h0.ents@[e] by {
                                if ids_has(old_i, e) {
                                    assert(ids_has(all0, e));
                                }
                                assert(host.ents@[e] == h_pre.ents@[e]);
                            }
                            // unprocessed children's primitives stay pristine
                            assert forall|k: int, e: int|
                                i + 1 <= k < kids0.len() && #[trigger] ids_has(
                                    state_ids(kids0[k]),
                                    e,
                                ) implies 0 <= e < h0.ents@.len() && host.ents@[e]
                                == h0.ents@[e] by {
                                assert(ids_disjoint(state_ids(kids0[i as int]), state_ids(kids0[k])));
                                crate::view::lemma_ids_disjoint_sym(
                                    state_ids(kids0[i as int]),
                                    state_ids(kids0[k]),
                                );
                                assert(!ids_has(old_i, e));
                                assert(host.ents@[e] == h_pre.ents@[e]);
                            }
                            // every child's span stays realized
                            assert forall|k: int| 0 <= k < kids0.len() implies span_ok(
                                state_span(#[trigger] kids@[k]),
                                *host,
                            ) by {
                                if k != i {
                                    assert(kids@[k] == kids_pre[k]);
                                    let sk = state_ids(kids_pre[k]);
                                    assert(span_ok(state_span(kids_pre[k]), h_pre));
                                    if k < i {
                                        assert(ids_disjoint(sk, old_i)) by {
                                            assert(ids_disjoint(
                                                state_ids(kids_pre[k]),
                                                state_ids(kids_pre[i as int]),
                                            ));
                                        }
                                    } else {
                                        assert(ids_disjoint(
                                            state_ids(kids_pre[i as int]),
                                            state_ids(kids_pre[k]),
                                        ));
                                        crate::view::lemma_ids_disjoint_sym(
                                            state_ids(kids_pre[i as int]),
                                            sk,
                                        );
                                    }
                                    assert forall|x: int| 0 <= x < sk.len() implies host.live(
                                        state_span(kids@[k]).ids()[x],
                                    ) by {
                                        let e = sk[x];
                                        assert(state_span(kids_pre[k]).ids()[x] == e);
                                        assert(h_pre.live(e));
                                        assert(ids_has(sk, e as int)) by {
                                            assert(sk[x] as int == e as int);
                                        }
                                        assert(!ids_has(old_i, e as int));
                                        assert(host.ents@[e as int] == h_pre.ents@[e as int]);
                                        assert(state_span(kids@[k]).ids()[x] == e);
                                    }
                                }
                            }
                            // residue summary for each processed child
                            assert forall|k: int| 0 <= k < i + 1 implies kid_reconciled(
                                h0,
                                *host,
                                state_ids(kids0[k]),
                                state_ids(#[trigger] kids@[k]),
                            ) by {
                                if k < i {
                                    let ok = state_ids(kids0[k]);
                                    let nk = state_ids(kids_pre[k]);
                                    assert(kids@[k] == kids_pre[k]);
                                    assert(kid_reconciled(h0, h_pre, ok, nk));
                                    assert forall|e: usize|
                                        #[trigger] ids_has(ok, e as int) && ids_has(
                                            nk,
                                            e as int,
                                        ) implies host.ents@[e as int] == h0.ents@[e as int] by {
                                        assert(h_pre.ents@[e as int] == h0.ents@[e as int]);
                                        assert(h_pre.live(e)) by {
                                            let w = choose|w: int|
                                                0 <= w < nk.len() && nk[w] as int == e as int;
                                            assert(state_span(kids_pre[k]).ids()[w] == nk[w]);
                                        }
                                        assert(ids_disjoint(nk, old_i)) by {
                                            assert(ids_disjoint(
                                                state_ids(kids_pre[k]),
                                                state_ids(kids_pre[i as int]),
                                            ));
                                        }
                                        assert(!ids_has(old_i, e as int));
                                        assert(host.ents@[e as int] == h_pre.ents@[e as int]);
                                    }
                                    assert forall|e: usize|
                                        #[trigger] ids_has(ok, e as int) && !ids_has(
                                            nk,
                                            e as int,
                                        ) implies !host.live(e) by {
                                        assert(!h_pre.live(e));
                                        assert(ids_has(all0, e as int)) by {
                                            lemma_kids_ids_member(kids0, k);
                                        }
                                        let w = choose|w: int|
                                            0 <= w < all0.len() && all0[w] as int == e as int;
                                        assert(state_span(*old(state)).ids()[w] == all0[w]);
                                        assert(h0.live(all0[w]));
                                        assert(ids_disjoint(state_ids(kids0[k]), old_i)) by {
                                            if k < i as int {
                                            }
                                        }
                                        assert(!ids_has(old_i, e as int));
                                        assert(host.ents@[e as int] == h_pre.ents@[e as int]);
                                    }
                                } else {
                                    let ok = state_ids(kids0[k]);
                                    let nk = state_ids(kids@[k]);
                                    assert forall|e: usize|
                                        #[trigger] ids_has(ok, e as int) && ids_has(
                                            nk,
                                            e as int,
                                        ) implies host.ents@[e as int] == h0.ents@[e as int] by {
                                        assert(ids_has(state_ids(kids0[k]), e as int));
                                        assert(h_pre.ents@[e as int] == h0.ents@[e as int]);
                                        assert(host.ents@[e as int] == h_pre.ents@[e as int]);
                                    }
                                    assert forall|e: usize|
                                        #[trigger] ids_has(nk, e as int) && !ids_has(
                                            ok,
                                            e as int,
                                        ) implies e >= h0.ents@.len() by {
                                        assert(e >= h_pre.ents@.len());
                                    }
                                }
                            }
                            // pairwise disjointness of the children's spans
                            assert forall|k1: int, k2: int|
                                0 <= k1 < k2 < kids0.len() implies ids_disjoint(
                                state_ids(kids@[k1]),
                                state_ids(kids@[k2]),
                            ) by {
                                let a = state_ids(kids@[k1]);
                                let b = state_ids(kids@[k2]);
                                if k1 != i && k2 != i {
                                    assert(kids@[k1] == kids_pre[k1]);
                                    assert(kids@[k2] == kids_pre[k2]);
                                } else {
                                    let j: int = if k1 == i {
                                        k2
                                    } else {
                                        k1
                                    };
                                    let sj = state_ids(kids_pre[j]);
                                    assert(kids@[j] == kids_pre[j]);
                                    let old_i = state_ids(kids0[i as int]);
                                    let new_i = state_ids(kids@[i as int]);
                                    assert(span_ok(state_span(kids_pre[j]), h_pre));
                                    assert forall|e: int| #[trigger]
                                        ids_has(new_i, e) implies !ids_has(sj, e) by {
                                        if ids_has(sj, e) {
                                            let x = choose|x: int|
                                                0 <= x < sj.len() && sj[x] as int == e;
                                            assert(state_span(kids_pre[j]).ids()[x] == sj[x]);
                                            assert(h_pre.live(sj[x]));
                                            assert(0 <= e < h_pre.ents@.len());
                                            let w = choose|w: int|
                                                0 <= w < new_i.len() && new_i[w] as int == e;
                                            let ew = new_i[w];
                                            assert(ids_has(new_i, ew as int)) by {
                                                assert(new_i[w] as int == ew as int);
                                            }
                                            if ids_has(old_i, ew as int) {
                                                assert(ids_has(old_i, e));
                                                if j < i as int {
                                                    assert(ids_disjoint(
                                                        state_ids(kids_pre[j]),
                                                        state_ids(kids_pre[i as int]),
                                                    ));
                                                    assert(false);
                                                } else {
                                                    assert(ids_disjoint(
                                                        state_ids(kids_pre[i as int]),
                                                        state_ids(kids_pre[j]),
                                                    ));
                                                    assert(false);
                                                }
                                            } else {
                                                assert(ew >= h_pre.ents@.len());
                                                assert(false);
                                            }
                                        }
                                    }
                                    if k1 == i {
                                    } else {
                                        crate::view::lemma_ids_disjoint_sym(new_i, sj);
                                    }
                                }
                            }
                            // arity bookkeeping
                            assert forall|k: int|
                                0 <= k < i + 1 implies state_ids(#[trigger] kids@[k]).len()
                                == basic_arity(cs@[k], *host) by {
                                if k < i {
                                    assert(kids@[k] == kids_pre[k]);
                                    lemma_arity_inputs_stable(cs@[k], h_pre, *host);
                                }
                            }
                            // every live fresh entity belongs to some child
                            assert forall|e: usize|
                                h0.ents@.len() <= e && (e as int) < host.ents@.len()
                                    && #[trigger] host.live(e) implies exists|k: int|
                                0 <= k < kids@.len() && ids_has(
                                    state_ids(#[trigger] kids@[k]),
                                    e as int,
                                ) by {
                                if (e as int) < h_pre.ents@.len() {
                                    assert(!ids_has(old_i, e as int)) by {
                                        if ids_has(old_i, e as int) {
                                            assert(ids_has(all0, e as int));
                                            let w = choose|w: int|
                                                0 <= w < all0.len() && all0[w] as int == e as int;
                                            assert(state_span(*old(state)).ids()[w] == all0[w]);
                                            assert(h0.live(all0[w]));
                                        }
                                    }
                                    assert(host.ents@[e as int] == h_pre.ents@[e as int]);
                                    assert(h_pre.live(e));
                                    let k0 = choose|k: int|
                                        0 <= k < kids_pre.len() && ids_has(
                                            state_ids(#[trigger] kids_pre[k]),
                                            e as int,
                                        );
                                    assert(k0 != i) by {
                                        if k0 == i {
                                            assert(ids_has(old_i, e as int));
                                        }
                                    }
                                    assert(kids@[k0] == kids_pre[k0]);
                                    assert(ids_has(state_ids(kids@[k0]), e as int));
                                } else {
                                    assert(ids_has(new_i, e as int));
                                    assert(ids_has(state_ids(kids@[i as int]), e as int));
                                }
                            }
                        }
                        i = i + 1;
                    }
                    let ghost kids_f = kids@;
                    let mut new_all: Vec<usize> = Vec::new();
                    let mut k2: usize = 0;
                    proof {
                        assert(kids_ids(kids_f.take(0)) =~= Seq::<usize>::empty());
                    }
                    while k2 < kids.len()
                        invariant
                            k2 <= kids@.len(),
                            kids@ == kids_f,
                            new_all@ == kids_ids(kids_f.take(k2 as int)),
                        decreases kids@.len() - k2,
                    {
                        let mut part = state_ids_vec(&kids[k2]);
                        new_all.append(&mut part);
                        proof {
                            assert(kids_f.take(k2 + 1) =~= kids_f.take(k2 as int).push(
                                kids_f[k2 as int],
                            ));
                            lemma_kids_ids_push(kids_f.take(k2 as int), kids_f[k2 as int]);
                        }
                        k2 = k2 + 1;
                    }
                    proof {
                        assert(kids_f.take(kids_f.len() as int) =~= kids_f);
                    }
                    let changed = !eq_id_vecs(all, &new_all);
                    let ghost new_ids = new_all@;
                    *all = new_all;
                    proof {
                        assert(all@ == new_ids);
                        assert(new_ids == kids_ids(kids_f));
                        assert(state_ids(*state) == new_ids);
                        // the final span is realized: live and distinct
                        assert forall|k: int| 0 <= k < kids_f.len() implies ids_distinct(
                            state_ids(#[trigger] kids_f[k]),
                        ) by {
                            assert(span_ok(state_span(kids_f[k]), *host));
                        }
                        lemma_concat_distinct_join(kids_f);
                        assert forall|x: int|
                            0 <= x < state_span(*state).ids().len() implies host.live(
                            state_span(*state).ids()[x],
                        ) by {
                            let e = new_ids[x];
                            assert(ids_has(new_ids, e as int)) by {
                                assert(new_ids[x] as int == e as int);
                            }
                            lemma_kids_ids_member_inv(kids_f, e as int);
                            let k = choose|k: int|
                                0 <= k < kids_f.len() && #[trigger] ids_has(
                                    state_ids(kids_f[k]),
                                    e as int,
                                );
                            let x2 = choose|x2: int|
                                0 <= x2 < state_ids(kids_f[k]).len() && state_ids(kids_f[k])[x2]
                                    as int == e as int;
                            assert(state_span(kids_f[k]).ids()[x2] == state_ids(kids_f[k])[x2]);
                            assert(host.live(state_ids(kids_f[k])[x2]));
                            assert(state_span(*state).ids()[x] == e);
                        }
                        // kept old primitives are untouched
                        assert forall|e: usize|
                            #[trigger] ids_has(all0, e as int) && ids_has(
                                new_ids,
                                e as int,
                            ) implies host.ents@[e as int] == h0.ents@[e as int] by {
                            lemma_kids_ids_member_inv(kids0, e as int);
                            let k = choose|k: int|
                                0 <= k < kids0.len() && #[trigger] ids_has(
                                    state_ids(kids0[k]),
                                    e as int,
                                );
                            lemma_kids_ids_member_inv(kids_f, e as int);
                            let j = choose|j: int|
                                0 <= j < kids_f.len() && #[trigger] ids_has(
                                    state_ids(kids_f[j]),
                                    e as int,
                                );
                            let w = choose|w: int|
                                0 <= w < all0.len() && all0[w] as int == e as int;
                            assert(state_span(*old(state)).ids()[w] == all0[w]);
                            assert(h0.live(all0[w]));
                            if j != k {
                                assert(kid_reconciled(
                                    h0,
                                    *host,
                                    state_ids(kids0[j]),
                                    state_ids(kids_f[j]),
                                ));
                                if ids_has(state_ids(kids0[j]), e as int) {
                                    lemma_concat_distinct_parts(kids0);
                                    if k < j {
                                        assert(ids_disjoint(
                                            state_ids(kids0[k]),
                                            state_ids(kids0[j]),
                                        ));
                                        assert(false);
                                    } else {
                                        assert(ids_disjoint(
                                            state_ids(kids0[j]),
                                            state_ids(kids0[k]),
                                        ));
                                        assert(false);
                                    }
                                } else {
                                    assert(e >= h0.ents@.len());
                                    assert(false);
                                }
                            }
                            assert(kid_reconciled(
                                h0,
                                *host,
                                state_ids(kids0[k]),
                                state_ids(kids_f[k]),
                            ));
                        }
                        // dropped old primitives are destroyed
                        assert forall|e: usize|
                            #[trigger] ids_has(all0, e as int) && !ids_has(
                                new_ids,
                                e as int,
                            ) implies !host.live(e) by {
                            lemma_kids_ids_member_inv(kids0, e as int);
                            let k = choose|k: int|
                                0 <= k < kids0.len() && #[trigger] ids_has(
                                    state_ids(kids0[k]),
                                    e as int,
                                );
                            lemma_kids_ids_member(kids_f, k);
                            assert(!ids_has(state_ids(kids_f[k]), e as int));
                            assert(kid_reconciled(
                                h0,
                                *host,
                                state_ids(kids0[k]),
                                state_ids(kids_f[k]),
                            ));
                        }
                        // adopted primitives come from the old span or are fresh
                        assert forall|e: usize|
                            #[trigger] ids_has(new_ids, e as int) && !ids_has(
                                all0,
                                e as int,
                            ) implies e >= h0.ents@.len() by {
                            lemma_kids_ids_member_inv(kids_f, e as int);
                            let j = choose|j: int|
                                0 <= j < kids_f.len() && #[trigger] ids_has(
                                    state_ids(kids_f[j]),
                                    e as int,
                                );
                            assert(kid_reconciled(
                                h0,
                                *host,
                                state_ids(kids0[j]),
                                state_ids(kids_f[j]),
                            ));
                            if ids_has(state_ids(kids0[j]), e as int) {
                                lemma_kids_ids_member(kids0, j);
                                assert(false);
                            }
                        }
                        lemma_kids_ids_len_arity(cs@, kids_f, *host);
                        assert forall|e: usize|
                            h0.ents@.len() <= e && (e as int) < host.ents@.len() && host.live(
                                e,
                            ) implies ids_has(state_ids(*state), e as int) by {
                            let k = choose|k: int|
                                0 <= k < kids_f.len() && ids_has(
                                    state_ids(#[trigger] kids_f[k]),
                                    e as int,
                                );
                            lemma_kids_ids_member(kids_f, k);
                        }
                    }
                    changed
                },
                _ => vstd::pervasive::unreached(),
            },
        }
    }
}

impl BasicView {
    /// Recursive worker for [`UiView::attach_children`].
    #[verifier::loop_isolation(false)]
    fn attach_rec(&self, host: &mut Host, cx: &mut Cx, state: &mut BasicState)
        requires
            basic_wf(*self, *old(state)),
            span_ok(state_span(*old(state)), *old(host)),
            old(host).live(old(cx).owner),
        ensures
            basic_wf(*self, *final(state)),
            state_ids(*final(state)) == state_ids(*old(state)),
            span_ok(state_span(*final(state)), *final(host)),
            attach_effect(*old(host), *final(host), state_ids(*old(state)), old(cx).owner),
            final(cx).owner == old(cx).owner,
            final(cx).scope.tick == old(cx).scope.tick,
        decreases *self,
    {
        match self {
            BasicView::Blank => {},
            BasicView::Prim => match state {
                BasicState::PrimState(e) => {
                    proof {
                        let s0 = state_span(*old(state));
                        assert(s0.ids() == seq![*e]);
                        assert(old(host).live(s0.ids()[0]));
                    }
                    host.set_parent(*e, cx.owner);
                    proof {
                        assert forall|x: usize| #[trigger]
                            ids_has(state_ids(*old(state)), x as int) implies host.ents@[x as int]
                            == (crate::host::EntityRec {
                            alive: true,
                            parent: Some(old(cx).owner),
                        }) by {
                            assert(x == *e);
                        }
                        assert(host.live(*e));
                        assert forall|k: int|
                            0 <= k < state_span(*state).ids().len() implies host.live(
                            state_span(*state).ids()[k],
                        ) by {
                            assert(state_span(*state).ids()[k] == *e);
                        }
                    }
                },
                _ => vstd::pervasive::unreached(),
            },
            BasicView::Counted(_) => match state {
                BasicState::CountedState(v) => {
                    proof {
                        let s0 = state_span(*old(state));
                        assert(s0.ids() == v@);
                        assert forall|k: int| 0 <= k < v@.len() implies old(host).live(
                            #[trigger] v@[k],
                        ) by {
                            assert(old(host).live(s0.ids()[k]));
                        }
                        assert forall|k1: int, k2: int|
                            0 <= k1 < k2 < v@.len() implies v@[k1] != v@[k2] by {
                            assert(s0.ids()[k1] != s0.ids()[k2]);
                        }
                    }
                    parent_all(host, v, cx.owner);
                    proof {
                        assert(state_span(*state).ids() == v@);
                        assert forall|k: int| 0 <= k < v@.len() implies host.live(
                            #[trigger] v@[k],
                        ) by {
                            assert(ids_has(v@, v@[k] as int));
                            assert(old(host).live(v@[k]));
                        }
                        assert forall|k: int|
                            0 <= k < state_span(*state).ids().len() implies host.live(
                            state_span(*state).ids()[k],
                        ) by {
                            assert(host.live(v@[k]));
                        }
                    }
                },
                _ => vstd::pervasive::unreached(),
            },
            BasicView::Group(cs) => match state {
                BasicState::GroupState(kids, all) => {
                    let ghost h0 = *old(host);
                    let ghost kids0 = kids@;
                    let ghost all0 = all@;
                    proof {
                        assert(all0 == kids_ids(kids0));
                        assert(state_span(*old(state)).ids() == all0);
                        assert(ids_distinct(all0));
                        lemma_concat_distinct_parts(kids0);
                        assert forall|k: int, e: int|
                            0 <= k < kids0.len() && #[trigger] ids_has(
                                state_ids(kids0[k]),
                                e,
                            ) implies 0 <= e < h0.ents@.len() by {
                            lemma_kids_ids_member(kids0, k);
                            assert(ids_has(all0, e));
                            let w = choose|w: int| 0 <= w < all0.len() && all0[w] as int == e;
                            assert(state_span(*old(state)).ids()[w] == all0[w]);
                            assert(h0.live(all0[w]));
                        }
                        assert forall|k: int| 0 <= k < kids0.len() implies span_ok(
                            state_span(#[trigger] kids0[k]),
                            h0,
                        ) by {
                            lemma_kids_ids_member(kids0, k);
                            let sk = state_ids(kids0[k]);
                            assert forall|x: int| 0 <= x < sk.len() implies h0.live(
                                state_span(kids0[k]).ids()[x],
                            ) by {
                                let e = sk[x];
                                assert(ids_has(sk, e as int)) by {
                                    assert(sk[x] as int == e as int);
                                }
                                assert(ids_has(all0, e as int));
                                let w = choose|w: int|
                                    0 <= w < all0.len() && all0[w] as int == e as int;
                                assert(state_span(*old(state)).ids()[w] == all0[w]);
                                assert(h0.live(all0[w]));
                                assert(state_span(kids0[k]).ids()[x] == e);
                            }
                        }
                    }
                    let mut i: usize = 0;
                    while i < cs.len()
                        invariant
                            i <= cs@.len(),
                            cs@.len() == kids0.len(),
                            kids@.len() == kids0.len(),
                            all@ == all0,
                            all0 == kids_ids(kids0),
                            ids_distinct(all0),
                            forall|k: int|
                                0 <= k < kids0.len() ==> basic_wf(
                                    cs@[k],
                                    #[trigger] kids@[k],
                                ),
                            forall|k: int|
                                0 <= k < kids0.len() ==> state_ids(#[trigger] kids@[k])
                                    == state_ids(kids0[k]),
                            host.ents@.len() == h0.ents@.len(),
                            host.inputs == h0.inputs,
                            host.tick == h0.tick,
                            host.live(old(cx).owner),
                            cx.owner == old(cx).owner,
                            cx.scope.tick == old(cx).scope.tick,
                            forall|e: int|
                                0 <= e < h0.ents@.len() && !ids_has(all0, e)
                                    ==> host.ents@[e] == h0.ents@[e],
                            forall|k: int, e: usize|
                                0 <= k < i && #[trigger] ids_has(
                                    state_ids(kids0[k]),
                                    e as int,
                                ) ==> host.ents@[e as int] == (crate::host::EntityRec {
                                    alive: true,
                                    parent: Some(old(cx).owner),
                                }),
                            forall|k: int, e: int|
                                i <= k < kids0.len() && #[trigger] ids_has(
                                    state_ids(kids0[k]),
                                    e,
                                ) ==> 0 <= e < h0.ents@.len() && host.ents@[e] == h0.ents@[e],
                            forall|k: int|
                                0 <= k < kids0.len() ==> span_ok(
                                    state_span(#[trigger] kids@[k]),
                                    *host,
                                ),
                        decreases cs@.len() - i,
                    {
                        let ghost h_pre = *host;
                        let ghost kids_pre = kids@;
                        proof {
                            assert(*self == BasicView::Group(*cs));
                        assert(decreases_to!(*self => (*self)->Group_0));
                        assert((*self)->Group_0 == *cs);
                        assert(decreases_to!(*cs => cs@));
                                                        assert(decreases_to!(cs@ => cs@[i as int]));
                        }
                        {
                            let kref = &mut kids[i];
                            (&cs[i]).attach_rec(host, cx, kref);
                        }
                        proof {
                            let ids_i = state_ids(kids_pre[i as int]);
                            assert(ids_i == state_ids(kids0[i as int]));
                            lemma_kids_ids_member(kids0, i as int);
                            lemma_concat_distinct_parts(kids0);
                            assert forall|e: int|
                                0 <= e < h0.ents@.len() && !ids_has(all0, e) implies host.ents@[e]
                                == h0.ents@[e] by {
                                if ids_has(ids_i, e) {
                                    assert(ids_has(all0, e));
                                }
                                assert(host.ents@[e] == h_pre.ents@[e]);
                            }
                            assert forall|k: int, e: usize|
                                0 <= k < i + 1 && #[trigger] ids_has(
                                    state_ids(kids0[k]),
                                    e as int,
                                ) implies host.ents@[e as int] == (crate::host::EntityRec {
                                alive: true,
                                parent: Some(old(cx).owner),
                            }) by {
                                if k < i {
                                    assert(ids_disjoint(
                                        state_ids(kids0[k]),
                                        state_ids(kids0[i as int]),
                                    ));
                                    assert(!ids_has(ids_i, e as int));
                                    assert(host.ents@[e as int] == h_pre.ents@[e as int]);
                                } else {
                                    assert(ids_has(state_ids(kids0[i as int]), e as int));
                                }
                            }
                            assert forall|k: int, e: int|
                                i + 1 <= k < kids0.len() && #[trigger] ids_has(
                                    state_ids(kids0[k]),
                                    e,
                                ) implies 0 <= e < h0.ents@.len() && host.ents@[e]
                                == h0.ents@[e] by {
                                assert(ids_disjoint(
                                    state_ids(kids0[i as int]),
                                    state_ids(kids0[k]),
                                ));
                                crate::view::lemma_ids_disjoint_sym(
                                    state_ids(kids0[i as int]),
                                    state_ids(kids0[k]),
                                );
                                assert(!ids_has(ids_i, e));
                                assert(host.ents@[e] == h_pre.ents@[e]);
                            }
                            assert forall|k: int| 0 <= k < kids0.len() implies span_ok(
                                state_span(#[trigger] kids@[k]),
                                *host,
                            ) by {
                                if k != i {
                                    assert(kids@[k] == kids_pre[k]);
                                    let sk = state_ids(kids_pre[k]);
                                    assert(span_ok(state_span(kids_pre[k]), h_pre));
                                    assert forall|x: int| 0 <= x < sk.len() implies host.live(
                                        state_span(kids@[k]).ids()[x],
                                    ) by {
                                        let e = sk[x];
                                        assert(state_span(kids_pre[k]).ids()[x] == e);
                                        assert(h_pre.live(e));
                                        assert(ids_has(sk, e as int)) by {
                                            assert(sk[x] as int == e as int);
                                        }
                                        if ids_has(ids_i, e as int) {
                                            assert(host.ents@[e as int]
                                                == (crate::host::EntityRec {
                                                alive: true,
                                                parent: Some(old(cx).owner),
                                            }));
                                        } else {
                                            assert(host.ents@[e as int] == h_pre.ents@[e as int]);
                                        }
                                        assert(state_span(kids@[k]).ids()[x] == e);
                                    }
                                }
                            }
                            assert(host.live(old(cx).owner)) by {
                                if ids_has(ids_i, old(cx).owner as int) {
                                    assert(host.ents@[old(cx).owner as int]
                                        == (crate::host::EntityRec {
                                        alive: true,
                                        parent: Some(old(cx).owner),
                                    }));
                                } else {
                                    assert(host.ents@[old(cx).owner as int]
                                        == h_pre.ents@[old(cx).owner as int]);
                                }
                            }
                        }
                        i = i + 1;
                    }
                    proof {
                        lemma_kids_ids_congruent(kids@, kids0);
                        assert(state_ids(*state) == all0);
                        assert forall|e: usize| #[trigger]
                            ids_has(all0, e as int) implies host.ents@[e as int]
                            == (crate::host::EntityRec {
                            alive: true,
                            parent: Some(old(cx).owner),
                        }) by {
                            lemma_kids_ids_member_inv(kids0, e as int);
                            let k = choose|k: int|
                                0 <= k < kids0.len() && #[trigger] ids_has(
                                    state_ids(kids0[k]),
                                    e as int,
                                );
                        }
                        assert forall|x: int|
                            0 <= x < state_span(*state).ids().len() implies host.live(
                            state_span(*state).ids()[x],
                        ) by {
                            let e = all0[x];
                            assert(ids_has(all0, e as int)) by {
                                assert(all0[x] as int == e as int);
                            }
                            assert(state_span(*state).ids()[x] == e);
                        }
                    }
                },
                _ => vstd::pervasive::unreached(),
            },
        }
    }

    /// Recursive worker for [`UiView::raze`].
    #[verifier::loop_isolation(false)]
    fn raze_rec(&self, host: &mut Host, state: &mut BasicState)
        requires
            basic_wf(*self, *old(state)),
            span_ok(state_span(*old(state)), *old(host)),
        ensures
            raze_effect(*old(host), *final(host), state_ids(*old(state))),
        decreases *self,
    {
        match self {
            BasicView::Blank => {},
            BasicView::Prim => match state {
                BasicState::PrimState(e) => {
                    proof {
                        let s0 = state_span(*old(state));
                        assert(s0.ids() == seq![*e]);
                        assert(old(host).live(s0.ids()[0]));
                    }
                    host.despawn(*e);
                    proof {
                        assert forall|x: usize| #[trigger]
                            ids_has(state_ids(*old(state)), x as int) implies !host.live(x) by {
                            assert(x == *e);
                        }
                    }
                },
                _ => vstd::pervasive::unreached(),
            },
            BasicView::Counted(_) => match state {
                BasicState::CountedState(v) => {
                    proof {
                        let s0 = state_span(*old(state));
                        assert(s0.ids() == v@);
                        assert forall|k: int| 0 <= k < v@.len() implies old(host).live(
                            #[trigger] v@[k],
                        ) by {
                            assert(old(host).live(s0.ids()[k]));
                        }
                        assert forall|k1: int, k2: int|
                            0 <= k1 < k2 < v@.len() implies v@[k1] != v@[k2] by {
                            assert(s0.ids()[k1] != s0.ids()[k2]);
                        }
                    }
                    despawn_all(host, v);
                },
                _ => vstd::pervasive::unreached(),
            },
            BasicView::Group(cs) => match state {
                BasicState::GroupState(kids, all) => {
                    let ghost h0 = *old(host);
                    let ghost kids0 = kids@;
                    let ghost all0 = all@;
                    proof {
                        assert(all0 == kids_ids(kids0));
                        assert(state_span(*old(state)).ids() == all0);
                        assert(ids_distinct(all0));
                        lemma_concat_distinct_parts(kids0);
                        assert forall|k: int, e: int|
                            0 <= k < kids0.len() && #[trigger] ids_has(
                                state_ids(kids0[k]),
                                e,
                            ) implies 0 <= e < h0.ents@.len() by {
                            lemma_kids_ids_member(kids0, k);
                            assert(ids_has(all0, e));
                            let w = choose|w: int| 0 <= w < all0.len() && all0[w] as int == e;
                            assert(state_span(*old(state)).ids()[w] == all0[w]);
                            assert(h0.live(all0[w]));
                        }
                        assert forall|k: int| 0 <= k < kids0.len() implies span_ok(
                            state_span(#[trigger] kids0[k]),
                            h0,
                        ) by {
                            lemma_kids_ids_member(kids0, k);
                            let sk = state_ids(kids0[k]);
                            assert forall|x: int| 0 <= x < sk.len() implies h0.live(
                                state_span(kids0[k]).ids()[x],
                            ) by {
                                let e = sk[x];
                                assert(ids_has(sk, e as int)) by {
                                    assert(sk[x] as int == e as int);
                                }
                                assert(ids_has(all0, e as int));
                                let w = choose|w: int|
                                    0 <= w < all0.len() && all0[w] as int == e as int;
                                assert(state_span(*old(state)).ids()[w] == all0[w]);
                                assert(h0.live(all0[w]));
                                assert(state_span(kids0[k]).ids()[x] == e);
                            }
                        }
                    }
                    let mut i: usize = 0;
                    while i < cs.len()
                        invariant
                            i <= cs@.len(),
                            cs@.len() == kids0.len(),
                            kids@.len() == kids0.len(),
                            all0 == kids_ids(kids0),
                            ids_distinct(all0),
                            forall|k: int|
                                i <= k < kids0.len() ==> #[trigger] kids@[k] == kids0[k],
                            forall|k: int|
                                0 <= k < kids0.len() ==> basic_wf(
                                    cs@[k],
                                    #[trigger] kids0[k],
                                ),
                            host.ents@.len() == h0.ents@.len(),
                            host.inputs == h0.inputs,
                            host.tick == h0.tick,
                            forall|e: int|
                                0 <= e < h0.ents@.len() && !ids_has(all0, e)
                                    ==> host.ents@[e] == h0.ents@[e],
                            forall|k: int, e: usize|
                                0 <= k < i && #[trigger] ids_has(
                                    state_ids(kids0[k]),
                                    e as int,
                                ) ==> !host.live(e),
                            forall|k: int, e: int|
                                i <= k < kids0.len() && #[trigger] ids_has(
                                    state_ids(kids0[k]),
                                    e,
                                ) ==> 0 <= e < h0.ents@.len() && host.ents@[e] == h0.ents@[e],
                            forall|k: int|
                                i <= k < kids0.len() ==> span_ok(
                                    state_span(#[trigger] kids@[k]),
                                    *host,
                                ),
                        decreases cs@.len() - i,
                    {
                        let ghost h_pre = *host;
                        let ghost kids_pre = kids@;
                        proof {
                            assert(*self == BasicView::Group(*cs));
                        assert(decreases_to!(*self => (*self)->Group_0));
                        assert((*self)->Group_0 == *cs);
                        assert(decreases_to!(*cs => cs@));
                                                        assert(decreases_to!(cs@ => cs@[i as int]));
                            assert(kids_pre[i as int] == kids0[i as int]);
                        }
                        {
                            let kref = &mut kids[i];
                            (&cs[i]).raze_rec(host, kref);
                        }
                        proof {
                            let ids_i = state_ids(kids0[i as int]);
                            lemma_kids_ids_member(kids0, i as int);
                            lemma_concat_distinct_parts(kids0);
                            assert forall|e: int|
                                0 <= e < h0.ents@.len() && !ids_has(all0, e) implies host.ents@[e]
                                == h0.ents@[e] by {
                                if ids_has(ids_i, e) {
                                    assert(ids_has(all0, e));
                                }
                                assert(host.ents@[e] == h_pre.ents@[e]);
                            }
                            assert forall|k: int, e: usize|
                                0 <= k < i + 1 && #[trigger] ids_has(
                                    state_ids(kids0[k]),
                                    e as int,
                                ) implies !host.live(e) by {
                                if k < i {
                                    assert(ids_disjoint(
                                        state_ids(kids0[k]),
                                        state_ids(kids0[i as int]),
                                    ));
                                    assert(!ids_has(ids_i, e as int));
                                    assert(!h_pre.live(e));
                                    assert(host.ents@[e as int] == h_pre.ents@[e as int]);
                                } else {
                                    assert(ids_has(ids_i, e as int));
                                }
                            }
                            assert forall|k: int, e: int|
                                i + 1 <= k < kids0.len() && #[trigger] ids_has(
                                    state_ids(kids0[k]),
                                    e,
                                ) implies 0 <= e < h0.ents@.len() && host.ents@[e]
                                == h0.ents@[e] by {
                                assert(ids_disjoint(
                                    state_ids(kids0[i as int]),
                                    state_ids(kids0[k]),
                                ));
                                crate::view::lemma_ids_disjoint_sym(
                                    state_ids(kids0[i as int]),
                                    state_ids(kids0[k]),
                                );
                                assert(!ids_has(ids_i, e));
                                assert(host.ents@[e] == h_pre.ents@[e]);
                            }
                            assert forall|k: int| i + 1 <= k < kids0.len() implies span_ok(
                                state_span(#[trigger] kids@[k]),
                                *host,
                            ) by {
                                assert(kids@[k] == kids0[k]);
                                let sk = state_ids(kids0[k]);
                                assert forall|x: int| 0 <= x < sk.len() implies host.live(
                                    state_span(kids@[k]).ids()[x],
                                ) by {
                                    let e = sk[x];
                                    assert(ids_has(sk, e as int)) by {
                                        assert(sk[x] as int == e as int);
                                    }
                                    assert(host.ents@[e as int] == h0.ents@[e as int]);
                                    assert(h0.live(e)) by {
                                        lemma_kids_ids_member(kids0, k);
                                        assert(ids_has(all0, e as int));
                                        let w = choose|w: int|
                                            0 <= w < all0.len() && all0[w] as int == e as int;
                                        assert(state_span(*old(state)).ids()[w] == all0[w]);
                                    }
                                    assert(state_span(kids@[k]).ids()[x] == e);
                                }
                                assert(ids_distinct(state_ids(kids@[k])));
                            }
                        }
                        i = i + 1;
                    }
                    proof {
                        assert forall|e: usize| #[trigger]
                            ids_has(all0, e as int) implies !host.live(e) by {
                            lemma_kids_ids_member_inv(kids0, e as int);
                            let k = choose|k: int|
                                0 <= k < kids0.len() && #[trigger] ids_has(
                                    state_ids(kids0[k]),
                                    e as int,
                                );
                        }
                    }
                },
                _ => vstd::pervasive::unreached(),
            },
        }
    }
}

/// The primitives a state stands for, as a plain vector.
fn state_ids_vec(s: &BasicState) -> (v: Vec<usize>)
    ensures
        v@ == state_ids(*s),
{
    match s {
        BasicState::BlankState => Vec::new(),
        BasicState::PrimState(e) => {
            let mut v: Vec<usize> = Vec::new();
            v.push(*e);
            v
        },
        BasicState::CountedState(v) => v.clone(),
        BasicState::GroupState(_, all) => all.clone(),
    }
}

/// Spawn `n` fresh primitives and return their ids, in order.
fn spawn_fresh(host: &mut Host, n: usize) -> (v: Vec<usize>)
    ensures
        v@.len() == n,
        final(host).grew_from(*old(host)),
        final(host).ents@.len() == old(host).ents@.len() + n,
        ({
            let hi = final(host).ents@.len();
            forall|k: int|
                0 <= k < v@.len() ==> old(host).ents@.len() <= #[trigger] v@[k] && v@[k] < hi
        }),
        forall|k: int| 0 <= k < v@.len() ==> final(host).live(#[trigger] v@[k]),
        forall|k1: int, k2: int| 0 <= k1 < k2 < v@.len() ==> v@[k1] != v@[k2],
        forall|e: usize| #[trigger] ids_has(v@, e as int) ==> e >= old(host).ents@.len(),
        forall|k: int| 0 <= k < v@.len() ==> #[trigger] v@[k] == old(host).ents@.len() + k,
        forall|e: usize|
            old(host).ents@.len() <= e && (e as int) < final(host).ents@.len() ==> ids_has(
                v@,
                e as int,
            ),
{
    let mut v: Vec<usize> = Vec::new();
    let mut j: usize = 0;
    while j < n
        invariant
            0 <= j <= n,
            v@.len() == j,
            host.grew_from(*old(host)),
            host.ents@.len() == old(host).ents@.len() + j,
            forall|k: int|
                0 <= k < v@.len() ==> old(host).ents@.len() <= #[trigger] v@[k] && v@[k]
                    < host.ents@.len(),
            forall|k: int| 0 <= k < v@.len() ==> host.live(#[trigger] v@[k]),
            forall|k1: int, k2: int| 0 <= k1 < k2 < v@.len() ==> v@[k1] != v@[k2],
            forall|k: int| 0 <= k < v@.len() ==> #[trigger] v@[k] == old(host).ents@.len() + k,
        decreases n - j,
    {
        let e = host.spawn();
        v.push(e);
        j = j + 1;
    }
    proof {
        assert forall|e: usize| #[trigger] ids_has(v@, e as int) implies e
            >= old(host).ents@.len() by {
            let k = choose|k: int| 0 <= k < v@.len() && v@[k] as int == e as int;
            assert(v@[k] >= old(host).ents@.len());
        }
        assert forall|e: usize|
            old(host).ents@.len() <= e && (e as int) < host.ents@.len() implies ids_has(
            v@,
            e as int,
        ) by {
            let k = e - old(host).ents@.len();
            assert(v@[k as int] as int == e as int);
        }
    }
    v
}

/// Despawn every primitive in `v`. The ids must be live and pairwise
/// distinct; exactly they are destroyed.
fn despawn_all(host: &mut Host, v: &Vec<usize>)
    requires
        forall|k: int| 0 <= k < v@.len() ==> old(host).live(#[trigger] v@[k]),
        forall|k1: int, k2: int| 0 <= k1 < k2 < v@.len() ==> v@[k1] != v@[k2],
    ensures
        final(host).ents@.len() == old(host).ents@.len(),
        final(host).inputs == old(host).inputs,
        final(host).tick == old(host).tick,
        forall|e: int|
            0 <= e < old(host).ents@.len() && !ids_has(v@, e) ==> final(host).ents@[e] == old(
                host,
            ).ents@[e],
        forall|e: usize| #[trigger] ids_has(v@, e as int) ==> !final(host).live(e),
{
    let mut j: usize = 0;
    while j < v.len()
        invariant
            0 <= j <= v@.len(),
            forall|k: int| 0 <= k < v@.len() ==> #[trigger] v@[k] < old(host).ents@.len(),
            forall|k1: int, k2: int| 0 <= k1 < k2 < v@.len() ==> v@[k1] != v@[k2],
            host.ents@.len() == old(host).ents@.len(),
            host.inputs == old(host).inputs,
            host.tick == old(host).tick,
            forall|e: int|
                0 <= e < old(host).ents@.len() && !ids_has(v@.take(j as int), e)
                    ==> host.ents@[e] == old(host).ents@[e],
            forall|k: int| 0 <= k < j ==> !host.live(#[trigger] v@[k]),
            forall|k: int| j <= k < v@.len() ==> host.live(#[trigger] v@[k]),
        decreases v@.len() - j,
    {
        host.despawn(v[j]);
        proof {
            assert forall|e: int|
                0 <= e < old(host).ents@.len() && !ids_has(v@.take(j + 1), e) implies host.ents@[e]
                == old(host).ents@[e] by {
                assert(v@.take(j + 1)[j as int] == v@[j as int]);
                if e == v@[j as int] as int {
                    assert(ids_has(v@.take(j + 1), e));
                } else if ids_has(v@.take(j as int), e) {
                    let k = choose|k: int| 0 <= k < j && v@.take(j as int)[k] as int == e;
                    assert(v@.take(j + 1)[k] as int == e);
                    assert(ids_has(v@.take(j + 1), e));
                }
            }
            assert forall|k: int| j + 1 <= k < v@.len() implies host.live(#[trigger] v@[k]) by {
                assert(v@[k] != v@[j as int]);
            }
        }
        j = j + 1;
    }
    proof {
        assert forall|e: int|
            0 <= e < old(host).ents@.len() && !ids_has(v@, e) implies host.ents@[e] == old(
            host,
        ).ents@[e] by {
            if ids_has(v@.take(v@.len() as int), e) {
                let k = choose|k: int| 0 <= k < v@.len() && v@.take(v@.len() as int)[k] as int == e;
                assert(v@[k] as int == e);
                assert(ids_has(v@, e));
            }
        }
        assert forall|e: usize| #[trigger] ids_has(v@, e as int) implies !host.live(e) by {
            let k = choose|k: int| 0 <= k < v@.len() && v@[k] as int == e as int;
            assert(!host.live(v@[k]));
        }
    }
}

/// Make every primitive in `v` a child of `owner`. The ids must be live
/// and pairwise distinct, and `owner` live.
fn parent_all(host: &mut Host, v: &Vec<usize>, owner: usize)
    requires
        forall|k: int| 0 <= k < v@.len() ==> old(host).live(#[trigger] v@[k]),
        forall|k1: int, k2: int| 0 <= k1 < k2 < v@.len() ==> v@[k1] != v@[k2],
        old(host).live(owner),
    ensures
        attach_effect(*old(host), *final(host), v@, owner),
{
    let mut j: usize = 0;
    while j < v.len()
        invariant
            0 <= j <= v@.len(),
            forall|k: int| 0 <= k < v@.len() ==> #[trigger] v@[k] < old(host).ents@.len(),
            forall|k1: int, k2: int| 0 <= k1 < k2 < v@.len() ==> v@[k1] != v@[k2],
            old(host).live(owner),
            host.ents@.len() == old(host).ents@.len(),
            host.inputs == old(host).inputs,
            host.tick == old(host).tick,
            forall|e: int|
                0 <= e < old(host).ents@.len() && !ids_has(v@.take(j as int), e)
                    ==> host.ents@[e] == old(host).ents@[e],
            forall|k: int|
                0 <= k < j ==> host.ents@[#[trigger] v@[k] as int] == (crate::host::EntityRec {
                    alive: true,
                    parent: Some(owner),
                }),
            forall|k: int| j <= k < v@.len() ==> host.live(#[trigger] v@[k]),
            host.live(owner),
        decreases v@.len() - j,
    {
        host.set_parent(v[j], owner);
        proof {
            assert forall|e: int|
                0 <= e < old(host).ents@.len() && !ids_has(v@.take(j + 1), e) implies host.ents@[e]
                == old(host).ents@[e] by {
                assert(v@.take(j + 1)[j as int] == v@[j as int]);
                if e == v@[j as int] as int {
                    assert(ids_has(v@.take(j + 1), e));
                } else if ids_has(v@.take(j as int), e) {
                    let k = choose|k: int| 0 <= k < j && v@.take(j as int)[k] as int == e;
                    assert(v@.take(j + 1)[k] as int == e);
                    assert(ids_has(v@.take(j + 1), e));
                }
            }
            assert forall|k: int| j + 1 <= k < v@.len() implies host.live(#[trigger] v@[k]) by {
                assert(v@[k] != v@[j as int]);
            }
            assert forall|k: int|
                0 <= k < j + 1 implies host.ents@[#[trigger] v@[k] as int]
                == (crate::host::EntityRec { alive: true, parent: Some(owner) }) by {
                if k < j {
                    assert(v@[k] != v@[j as int]);
                }
            }
        }
        j = j + 1;
    }
    proof {
        assert forall|e: int|
            0 <= e < old(host).ents@.len() && !ids_has(v@, e) implies host.ents@[e] == old(
            host,
        ).ents@[e] by {
            if ids_has(v@.take(v@.len() as int), e) {
                let k = choose|k: int| 0 <= k < v@.len() && v@.take(v@.len() as int)[k] as int == e;
                assert(v@[k] as int == e);
                assert(ids_has(v@, e));
            }
        }
        assert forall|e: usize| #[trigger] ids_has(v@, e as int) implies host.ents@[e as int]
            == (crate::host::EntityRec { alive: true, parent: Some(owner) }) by {
            let k = choose|k: int| 0 <= k < v@.len() && v@[k] as int == e as int;
        }
    }
}

} // verus!
