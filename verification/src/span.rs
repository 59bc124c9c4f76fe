//! The output span: which display primitives a view currently owns.

use vstd::prelude::*;

verus! {

/// The span of display primitives (0, 1 or N host entities) that a view
/// currently owns. Spans are pure data; parents compose the spans of their
/// children by concatenation, an empty span contributing nothing.
#[derive(Clone, Debug)]
pub enum NodeSpan {
    /// The view owns no display primitive.
    Empty,
    /// The view owns exactly one display primitive.
    Single(usize),
    /// The view owns an ordered sequence of display primitives.
    Sequence(Vec<usize>),
}

impl NodeSpan {
    /// The ordered sequence of primitive entities this span stands for.
    pub open spec fn ids(self) -> Seq<usize> {
        match self {
            NodeSpan::Empty => Seq::empty(),
            NodeSpan::Single(e) => seq![e],
            NodeSpan::Sequence(v) => v@,
        }
    }

    /// How many display primitives the span holds.
    pub fn count(&self) -> (n: usize)
        ensures
            n == self.ids().len(),
    {
        match self {
            NodeSpan::Empty => 0,
            NodeSpan::Single(_) => 1,
            NodeSpan::Sequence(v) => v.len(),
        }
    }

    /// The primitives of the span, in order, as a plain vector.
    pub fn to_vec(&self) -> (v: Vec<usize>)
        ensures
            v@ == self.ids(),
    {
        match self {
            NodeSpan::Empty => Vec::new(),
            NodeSpan::Single(e) => {
                let mut v: Vec<usize> = Vec::new();
                v.push(*e);
                v
            },
            NodeSpan::Sequence(v) => v.clone(),
        }
    }

    /// Whether two spans stand for the same ordered primitives.
    pub fn same_ids(&self, other: &NodeSpan) -> (r: bool)
        ensures
            r == (self.ids() == other.ids()),
    {
        let a = self.to_vec();
        let b = other.to_vec();
        let r = eq_id_vecs(&a, &b);
        proof {
            if a@ =~= b@ {
                assert(self.ids() == other.ids());
            }
        }
        r
    }
}

/// The returned span `r` faithfully renders the span value `s`: the same
/// primitives in the same order and the same variant; an `Empty` or
/// `Single` span is returned as exactly that value. Only a `Sequence`'s
/// backing vector may be a different allocation with equal contents.
pub open spec fn span_matches(r: NodeSpan, s: NodeSpan) -> bool {
    &&& r.ids() == s.ids()
    &&& (r is Empty) == (s is Empty)
    &&& (r is Single) == (s is Single)
    &&& (r is Sequence) == (s is Sequence)
    &&& s is Empty ==> r == s
    &&& s is Single ==> r == s
}

/// The ordered concatenation of the spans in `spans`, first to last.
pub open spec fn concat_ids(spans: Seq<NodeSpan>) -> Seq<usize>
    decreases spans.len(),
{
    if spans.len() == 0 {
        Seq::empty()
    } else {
        spans[0].ids() + concat_ids(spans.drop_first())
    }
}

/// Concatenation peeled from the back: what one more child contributes.
pub proof fn lemma_concat_ids_push(spans: Seq<NodeSpan>, s: NodeSpan)
    ensures
        concat_ids(spans.push(s)) == concat_ids(spans) + s.ids(),
    decreases spans.len(),
{
    if spans.len() == 0 {
        let p = spans.push(s);
        assert(p[0] == s);
        assert(p.drop_first() =~= Seq::<NodeSpan>::empty());
        assert(concat_ids(p.drop_first()) =~= Seq::<usize>::empty());
        assert(concat_ids(p) =~= s.ids() + concat_ids(p.drop_first()));
        assert(concat_ids(spans) =~= Seq::<usize>::empty());
        assert(concat_ids(spans.push(s)) =~= concat_ids(spans) + s.ids());
    } else {
        assert(spans.push(s).drop_first() =~= spans.drop_first().push(s));
        lemma_concat_ids_push(spans.drop_first(), s);
        assert(concat_ids(spans.push(s)) =~= concat_ids(spans) + s.ids());
    }
}

/// An empty span contributes nothing to a concatenation: dropping an empty
/// child from the list leaves the aggregated primitive sequence unchanged.
pub proof fn lemma_concat_ids_skips_empty(spans: Seq<NodeSpan>, i: int)
    requires
        0 <= i < spans.len(),
        spans[i] == NodeSpan::Empty,
    ensures
        concat_ids(spans.remove(i)) == concat_ids(spans),
    decreases spans.len(),
{
    if i == 0 {
        assert(spans.remove(0) =~= spans.drop_first());
        assert(spans[0].ids() =~= Seq::<usize>::empty());
        assert(concat_ids(spans.remove(0)) =~= concat_ids(spans));
    } else {
        lemma_concat_ids_skips_empty(spans.drop_first(), i - 1);
        assert(spans.remove(i).drop_first() =~= spans.drop_first().remove(i - 1));
        assert(concat_ids(spans.remove(i)) =~= concat_ids(spans));
    }
}

/// Aggregate the spans of an ordered list of children into the parent's
/// span, by concatenation. The resulting primitive sequence is exactly the
/// ordered concatenation of each child's primitives.
pub fn aggregate_spans(children: &Vec<NodeSpan>) -> (r: NodeSpan)
    ensures
        r.ids() == concat_ids(children@),
{
    let mut out: Vec<usize> = Vec::new();
    let ghost spans = children@;
    proof {
        assert(spans.take(0) =~= Seq::<NodeSpan>::empty());
    }
    let mut i: usize = 0;
    while i < children.len()
        invariant
            0 <= i <= children.len(),
            spans == children@,
            out@ == concat_ids(spans.take(i as int)),
        decreases children.len() - i,
    {
        let mut part = children[i].to_vec();
        out.append(&mut part);
        proof {
            assert(spans.take(i + 1) =~= spans.take(i as int).push(spans[i as int]));
            lemma_concat_ids_push(spans.take(i as int), spans[i as int]);
        }
        i = i + 1;
    }
    proof {
        assert(spans.take(children@.len() as int) =~= spans);
    }
    NodeSpan::Sequence(out)
}

/// Element-wise equality of two id vectors.
pub fn eq_id_vecs(a: &Vec<usize>, b: &Vec<usize>) -> (r: bool)
    ensures
        r == (a@ =~= b@),
{
    if a.len() != b.len() {
        return false;
    }
    let mut i: usize = 0;
    while i < a.len()
        invariant
            0 <= i <= a.len(),
            a@.len() == b@.len(),
            forall|j: int| 0 <= j < i ==> a@[j] == b@[j],
        decreases a.len() - i,
    {
        if a[i] != b[i] {
            return false;
        }
        i = i + 1;
    }
    true
}

} // verus!
