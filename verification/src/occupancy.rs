//! Who stands on which slot.
//!
//! A unit that finishes a move at a slot claims it: the slot is marked
//! occupied and the unit keeps a reference to it. A unit lets go of its slot
//! at the start of every tick in which it moves.

use crate::geometry::Entity;
use std::collections::HashMap;
use std::collections::HashSet;
use vstd::prelude::*;

verus! {

broadcast use vstd::std_specs::hash::group_hash_axioms;

/// The mark of a slot that a unit stands on.
#[derive(Clone, Copy, Debug, PartialEq, Eq, Structural)]
pub struct Occupied;

/// The reference of a unit to the slot it stands on.
#[derive(Clone, Copy, Debug, PartialEq, Eq, Structural)]
pub struct Occupies(pub Entity);

impl Occupies {
    pub fn whom(&self) -> (slot: Entity)
        ensures
            slot == self.0,
    {
        self.0
    }
}

/// The state of all claims: for each unit the slot it refers to, and the
/// set of slots that carry the mark.
pub struct Claims {
    pub occupies: Map<Entity, Entity>,
    pub occupied: Set<Entity>,
}

impl Claims {
    /// No unit refers to a slot and no slot is marked.
    pub open spec fn none() -> Claims {
        Claims { occupies: Map::empty(), occupied: Set::empty() }
    }

    /// The claims after `agent` lets go: the slot it referred to loses its
    /// mark and the reference is dropped. A unit without a slot changes
    /// nothing.
    pub open spec fn release(self, agent: Entity) -> Claims {
        if self.occupies.contains_key(agent) {
            Claims {
                occupies: self.occupies.remove(agent),
                occupied: self.occupied.remove(self.occupies[agent]),
            }
        } else {
            self
        }
    }

    /// The claims after `agent` takes `slot`.
    pub open spec fn claim(self, agent: Entity, slot: Entity) -> Claims {
        Claims {
            occupies: self.occupies.insert(agent, slot),
            occupied: self.occupied.insert(slot),
        }
    }

    /// Whether a unit other than `agent` refers to `slot`.
    pub open spec fn held_by_other(self, agent: Entity, slot: Entity) -> bool {
        exists|other: Entity|
            other != agent && #[trigger] self.occupies.contains_key(other) && self.occupies[other]
                == slot
    }

    /// No two units refer to the same slot.
    pub open spec fn exclusive(self) -> bool {
        forall|a: Entity, b: Entity|
            #[trigger] self.occupies.contains_key(a) && #[trigger] self.occupies.contains_key(b)
                && a != b ==> self.occupies[a] != self.occupies[b]
    }

    /// The marked slots are exactly the ones that some unit refers to.
    pub open spec fn consistent(self) -> bool {
        forall|slot: Entity|
            self.occupied.contains(slot) <==> exists|a: Entity|
                #[trigger] self.occupies.contains_key(a) && self.occupies[a] == slot
    }
}

/// A world without claims has no shared slot, and its marks are in step
/// with its references.
pub proof fn lemma_no_claims_are_exclusive()
    ensures
        Claims::none().exclusive(),
        Claims::none().consistent(),
{
}

/// Letting go never makes two units share a slot, and it keeps the marks in
/// step with the references as long as no slot is shared.
pub proof fn lemma_release_keeps_exclusive(claims: Claims, agent: Entity)
    requires
        claims.exclusive(),
    ensures
        claims.release(agent).exclusive(),
        claims.consistent() ==> claims.release(agent).consistent(),
{
    let after = claims.release(agent);
    if claims.consistent() && claims.occupies.contains_key(agent) {
        let gone = claims.occupies[agent];
        assert forall|slot: Entity|
            after.occupied.contains(slot) <==> exists|a: Entity|
                #[trigger] after.occupies.contains_key(a) && after.occupies[a] == slot by {
            if after.occupied.contains(slot) {
                assert(claims.occupied.contains(slot));
                let a = choose|a: Entity|
                    #[trigger] claims.occupies.contains_key(a) && claims.occupies[a] == slot;
                assert(a != agent);
                assert(after.occupies.contains_key(a) && after.occupies[a] == slot);
            }
            if exists|a: Entity| #[trigger]
                after.occupies.contains_key(a) && after.occupies[a] == slot {
                let a = choose|a: Entity|
                    #[trigger] after.occupies.contains_key(a) && after.occupies[a] == slot;
                assert(claims.occupies.contains_key(a) && claims.occupies[a] == slot);
                assert(claims.occupies.contains_key(agent));
                assert(slot != gone);
            }
        }
    }
}

/// Slots stay with one unit each: where no two units share a slot, a unit
/// that claims a slot to which no other unit refers leaves it so.
pub proof fn lemma_claim_keeps_exclusive(claims: Claims, agent: Entity, slot: Entity)
    requires
        claims.exclusive(),
        !claims.held_by_other(agent, slot),
    ensures
        claims.claim(agent, slot).exclusive(),
{
    let after = claims.claim(agent, slot);
    assert forall|a: Entity, b: Entity|
        #[trigger] after.occupies.contains_key(a) && #[trigger] after.occupies.contains_key(b) && a
            != b implies after.occupies[a] != after.occupies[b] by {
        if a == agent {
            assert(claims.occupies.contains_key(b));
        } else if b == agent {
            assert(claims.occupies.contains_key(a));
        } else {
            assert(claims.occupies.contains_key(a) && claims.occupies.contains_key(b));
        }
    }
}

/// A claim by a unit that holds nothing keeps the marks in step with the
/// references.
pub proof fn lemma_claim_keeps_consistent(claims: Claims, agent: Entity, slot: Entity)
    requires
        claims.consistent(),
        !claims.occupies.contains_key(agent),
    ensures
        claims.claim(agent, slot).consistent(),
{
    let after = claims.claim(agent, slot);
    assert forall|s: Entity|
        after.occupied.contains(s) <==> exists|a: Entity|
            #[trigger] after.occupies.contains_key(a) && after.occupies[a] == s by {
        if after.occupied.contains(s) {
            if s == slot {
                assert(after.occupies.contains_key(agent) && after.occupies[agent] == s);
            } else {
                let a = choose|a: Entity|
                    #[trigger] claims.occupies.contains_key(a) && claims.occupies[a] == s;
                assert(after.occupies.contains_key(a) && after.occupies[a] == s);
            }
        }
        if exists|a: Entity| #[trigger] after.occupies.contains_key(a) && after.occupies[a] == s {
            let a = choose|a: Entity|
                #[trigger] after.occupies.contains_key(a) && after.occupies[a] == s;
            if a != agent {
                assert(claims.occupies.contains_key(a) && claims.occupies[a] == s);
            }
        }
    }
}

/// The store of all claims of a world.
pub struct Occupancy {
    occupies: HashMap<Entity, Entity>,
    occupied: HashSet<Entity>,
}

impl View for Occupancy {
    type V = Claims;

    closed spec fn view(&self) -> Claims {
        Claims { occupies: self.occupies@, occupied: self.occupied@ }
    }
}

impl Occupancy {
    /// A world without claims.
    pub fn new() -> (store: Self)
        ensures
            store@ == Claims::none(),
    {
        Self { occupies: HashMap::new(), occupied: HashSet::new() }
    }

    /// Whether `slot` carries the mark.
    pub fn is_occupied(&self, slot: Entity) -> (marked: bool)
        ensures
            marked == self@.occupied.contains(slot),
    {
        self.occupied.contains(&slot)
    }

    /// The reference that `agent` holds, if it holds one.
    pub fn occupies(&self, agent: Entity) -> (held: Option<Occupies>)
        ensures
            held is Some <==> self@.occupies.contains_key(agent),
            held matches Some(reference) ==> reference.0 == self@.occupies[agent],
    {
        match self.occupies.get(&agent) {
            Some(slot) => Some(Occupies(*slot)),
            None => None,
        }
    }

    /// `agent` lets go of its slot, if it has one: the slot loses its mark
    /// and the unit its reference.
    pub fn release(&mut self, agent: Entity) -> (released: Option<Occupies>)
        ensures
            final(self)@ == old(self)@.release(agent),
            released is Some <==> old(self)@.occupies.contains_key(agent),
            released matches Some(reference) ==> reference.0 == old(self)@.occupies[agent],
    {
        let removed: Option<Entity> = self.occupies.remove(&agent);
        match removed {
            Some(slot) => {
                self.occupied.remove(&slot);
                proof {
                    let wanted = old(self)@.release(agent);
                    assert(self.occupies@ =~= wanted.occupies);
                    assert(self.occupied@ =~= wanted.occupied);
                }
                Some(Occupies(slot))
            },
            None => {
                proof {
                    assert(self.occupies@ =~= old(self)@.occupies);
                    assert(self.occupied@ =~= old(self)@.occupied);
                }
                None
            },
        }
    }

    /// `agent` takes `slot`: the slot is marked and the unit refers to it.
    /// Where no two units shared a slot before and no other unit refers to
    /// `slot`, none do after.
    pub fn claim(&mut self, agent: Entity, slot: Entity)
        ensures
            final(self)@ == old(self)@.claim(agent, slot),
            old(self)@.exclusive() && !old(self)@.held_by_other(agent, slot)
                ==> final(self)@.exclusive(),
    {
        self.occupies.insert(agent, slot);
        self.occupied.insert(slot);
        proof {
            if old(self)@.exclusive() && !old(self)@.held_by_other(agent, slot) {
                lemma_claim_keeps_exclusive(old(self)@, agent, slot);
            }
        }
    }
}

} // verus!
