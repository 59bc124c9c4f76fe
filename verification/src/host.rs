//! A model of the host substrate that realizes display primitives.
//!
//! The engine only needs three operations from the substrate: create a
//! primitive entity, destroy one, and make one entity the child of another.
//! The substrate also stores the reactive input values that views read while
//! building, and a logical change tick. Entities are dense indices; an index
//! is never reused, so a fresh entity is never equal to an earlier one.

use vstd::prelude::*;

verus! {

/// One entity slot of the host substrate.
#[derive(Clone, Copy, Debug, PartialEq, Eq, Structural)]
pub struct EntityRec {
    /// Whether the entity currently exists.
    pub alive: bool,
    /// The entity this one is parented under, if any.
    pub parent: Option<usize>,
}

/// The host substrate: entity slots, reactive input values and a change tick.
pub struct Host {
    /// Entity slots, indexed by entity id. Slots are never removed.
    pub ents: Vec<EntityRec>,
    /// Reactive input values, indexed by input id.
    pub inputs: Vec<usize>,
    /// The current logical change tick.
    pub tick: u64,
}

impl Host {
    /// The number of entity slots ever allocated.
    pub open spec fn n_ents(self) -> int {
        self.ents@.len() as int
    }

    /// Whether entity `e` currently exists.
    pub open spec fn live(self, e: usize) -> bool {
        e < self.ents@.len() && self.ents@[e as int].alive
    }

    /// The recorded parent of entity `e`, `None` when out of range.
    pub open spec fn parent_of(self, e: usize) -> Option<usize> {
        if e < self.ents@.len() {
            self.ents@[e as int].parent
        } else {
            None
        }
    }

    /// The value of reactive input `i`; an input never written reads as 0.
    pub open spec fn input_val(self, i: usize) -> usize {
        if i < self.inputs@.len() {
            self.inputs@[i as int]
        } else {
            0
        }
    }

    /// `self` is `older` plus freshly spawned entities: every slot that
    /// existed in `older` is unchanged, and inputs and tick are the same.
    pub open spec fn grew_from(self, older: Host) -> bool {
        &&& older.ents@.len() <= self.ents@.len()
        &&& forall|e: int| 0 <= e < older.ents@.len() ==> self.ents@[e] == older.ents@[e]
        &&& self.inputs == older.inputs
        &&& self.tick == older.tick
    }

    /// A fresh, empty substrate.
    pub fn new() -> (h: Host)
        ensures
            h.ents@.len() == 0,
            h.inputs@.len() == 0,
            h.tick == 0,
    {
        Host { ents: Vec::new(), inputs: Vec::new(), tick: 0 }
    }

    /// Create a new entity and return its id. Existing slots, inputs and
    /// tick are untouched; the new entity is live, without a parent, and its
    /// id is fresh.
    pub fn spawn(&mut self) -> (e: usize)
        ensures
            e == old(self).n_ents(),
            final(self).ents@.len() == old(self).ents@.len() + 1,
            final(self).grew_from(*old(self)),
            final(self).live(e),
            final(self).parent_of(e) == None::<usize>,
    {
        let e = self.ents.len();
        self.ents.push(EntityRec { alive: true, parent: None });
        e
    }

    /// Destroy entity `e`. Its slot stays allocated (ids are never reused)
    /// but it is no longer live and loses its parent; every other slot,
    /// the inputs and the tick are untouched.
    pub fn despawn(&mut self, e: usize)
        requires
            old(self).live(e),
        ensures
            final(self).ents@.len() == old(self).ents@.len(),
            !final(self).live(e),
            final(self).ents@[e as int] == (EntityRec { alive: false, parent: None }),
            forall|o: int|
                0 <= o < final(self).ents@.len() && o != e ==> final(self).ents@[o] == old(
                    self,
                ).ents@[o],
            final(self).inputs == old(self).inputs,
            final(self).tick == old(self).tick,
    {
        self.ents.set(e, EntityRec { alive: false, parent: None });
    }

    /// Make entity `child` a child of entity `parent`. Only the child's
    /// parent field changes; liveness, every other slot, the inputs and the
    /// tick are untouched.
    pub fn set_parent(&mut self, child: usize, parent: usize)
        requires
            old(self).live(child),
            old(self).live(parent),
        ensures
            final(self).ents@.len() == old(self).ents@.len(),
            final(self).ents@[child as int] == (EntityRec { alive: true, parent: Some(parent) }),
            forall|o: int|
                0 <= o < final(self).ents@.len() && o != child ==> final(self).ents@[o] == old(
                    self,
                ).ents@[o],
            final(self).inputs == old(self).inputs,
            final(self).tick == old(self).tick,
    {
        self.ents.set(child, EntityRec { alive: true, parent: Some(parent) });
    }

    /// Whether entity `e` currently exists.
    pub fn is_live(&self, e: usize) -> (r: bool)
        ensures
            r == self.live(e),
    {
        e < self.ents.len() && self.ents[e].alive
    }

    /// The recorded parent of entity `e`.
    pub fn parent(&self, e: usize) -> (p: Option<usize>)
        ensures
            p == self.parent_of(e),
    {
        if e < self.ents.len() {
            self.ents[e].parent
        } else {
            None
        }
    }

    /// Read reactive input `i`; an input never written reads as 0.
    pub fn input(&self, i: usize) -> (v: usize)
        ensures
            v == self.input_val(i),
    {
        if i < self.inputs.len() {
            self.inputs[i]
        } else {
            0
        }
    }

    /// Set reactive input `i` to `v`, growing the input table as needed.
    /// Entities and tick are untouched.
    pub fn set_input(&mut self, i: usize, v: usize)
        ensures
            final(self).input_val(i) == v,
            forall|o: usize| o != i ==> final(self).input_val(o) == old(self).input_val(o),
            final(self).ents == old(self).ents,
            final(self).tick == old(self).tick,
    {
        while self.inputs.len() <= i
            invariant
                self.ents == old(self).ents,
                self.tick == old(self).tick,
                forall|o: usize| self.input_val(o) == old(self).input_val(o),
            decreases i + 1 - self.inputs.len(),
        {
            let ghost pre = *self;
            self.inputs.push(0);
            proof {
                assert(forall|o: usize| self.input_val(o) == pre.input_val(o));
            }
        }
        self.inputs.set(i, v);
    }

    /// Advance the logical change tick by one, saturating at the maximum.
    pub fn advance_tick(&mut self)
        ensures
            final(self).ents == old(self).ents,
            final(self).inputs == old(self).inputs,
            final(self).tick == if old(self).tick == u64::MAX {
                u64::MAX as int
            } else {
                old(self).tick + 1
            },
    {
        if self.tick < u64::MAX {
            self.tick = self.tick + 1;
        }
    }
}

} // verus!
