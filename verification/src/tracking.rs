//! Reactive tracking scopes and the drive context.
//!
//! A tracking scope records which reactive inputs a view read while building
//! or rebuilding, so the external invalidation machinery can decide when to
//! drive the tree again. The engine does not decide *when* a rebuild happens;
//! it only guarantees that a fresh scope is created per drive of a root and
//! threaded opaquely through every nested view call.

use vstd::prelude::*;
use crate::host::Host;

verus! {

/// Records the reactive inputs read during one drive of one root, stamped
/// with the logical tick at which the drive started.
pub struct TrackingScope {
    /// The change tick current when this scope was created.
    pub tick: u64,
    /// The reactive inputs read so far, in order of first read.
    pub reads: Vec<usize>,
}

impl TrackingScope {
    /// The set of inputs recorded so far.
    pub open spec fn read_set(self) -> Set<usize> {
        Set::new(|x: usize| self.reads@.contains(x))
    }

    /// A fresh scope stamped with tick `tick`, with nothing recorded.
    pub fn new(tick: u64) -> (s: TrackingScope)
        ensures
            s.tick == tick,
            s.reads@.len() == 0,
    {
        TrackingScope { tick, reads: Vec::new() }
    }

    /// Record that reactive input `i` was read: appended in order of first
    /// read, never recorded twice.
    pub fn track(&mut self, i: usize)
        ensures
            final(self).tick == old(self).tick,
            final(self).read_set() == old(self).read_set().insert(i),
            final(self).reads@ == if old(self).reads@.contains(i) {
                old(self).reads@
            } else {
                old(self).reads@.push(i)
            },
    {
        let mut k: usize = 0;
        while k < self.reads.len()
            invariant
                0 <= k <= self.reads@.len(),
                *self == *old(self),
                forall|j: int| 0 <= j < k ==> self.reads@[j] != i,
            decreases self.reads@.len() - k,
        {
            if self.reads[k] == i {
                proof {
                    assert(self.reads@.contains(i)) by {
                        assert(self.reads@[k as int] == i);
                    }
                    assert(self.read_set() =~= old(self).read_set().insert(i));
                }
                return ;
            }
            k = k + 1;
        }
        proof {
            assert(!old(self).reads@.contains(i)) by {
                if old(self).reads@.contains(i) {
                    let j = choose|j: int|
                        0 <= j < old(self).reads@.len() && old(self).reads@[j] == i;
                }
            }
        }
        self.reads.push(i);
        proof {
            assert forall|x: usize| self.reads@.contains(x) <==> (old(self).reads@.contains(x) || x
                == i) by {
                if self.reads@.contains(x) {
                    let j = choose|j: int| 0 <= j < self.reads@.len() && self.reads@[j] == x;
                    if j < old(self).reads@.len() {
                        assert(old(self).reads@[j] == x);
                    }
                } else {
                }
                if old(self).reads@.contains(x) {
                    let j = choose|j: int|
                        0 <= j < old(self).reads@.len() && old(self).reads@[j] == x;
                    assert(self.reads@[j] == x);
                }
                if x == i {
                    assert(self.reads@[self.reads@.len() - 1] == i);
                }
            }
            assert(self.read_set() =~= old(self).read_set().insert(i));
        }
    }
}

/// The context threaded through `build` and `rebuild`: the entity that owns
/// the subtree being driven, and the tracking scope of the current drive.
pub struct Cx {
    /// The host entity that owns the primitives the driven view produces.
    pub owner: usize,
    /// The tracking scope of the current drive.
    pub scope: TrackingScope,
}

impl Cx {
    /// A context for driving the tree under `owner` within scope `scope`.
    pub fn new(owner: usize, scope: TrackingScope) -> (cx: Cx)
        ensures
            cx.owner == owner,
            cx.scope == scope,
    {
        Cx { owner, scope }
    }

    /// Read reactive input `i` from the host, recording the read in the
    /// tracking scope.
    pub fn read_input(&mut self, host: &Host, i: usize) -> (v: usize)
        ensures
            v == host.input_val(i),
            final(self).owner == old(self).owner,
            final(self).scope.tick == old(self).scope.tick,
            final(self).scope.read_set() == old(self).scope.read_set().insert(i),
    {
        self.scope.track(i);
        host.input(i)
    }
}

} // verus!
