//! Slots beneath a container: where units are spawned and where they
//! stand to interact.

use crate::geometry::{
    first_nearest, is_first_nearest, lemma_first_nearest_is_nearest, nearest_eligible, Entity,
    Position,
};
use crate::occupancy::Occupancy;
use vstd::prelude::*;

verus! {

/// The two kinds of slot.
#[derive(Clone, Copy, Debug, PartialEq, Eq, Structural)]
pub enum Locator {
    Spawn,
    Interact,
}

impl Default for Locator {
    fn default() -> (kind: Self)
        ensures
            kind == Locator::Interact,
    {
        Locator::Interact
    }
}

/// The text that the name of a slot of the given kind contains.
pub open spec fn marker_of(locator: Locator) -> Seq<char> {
    match locator {
        Locator::Spawn => "spawn_locator"@,
        Locator::Interact => "interact_locator"@,
    }
}

/// Whether `pattern` occurs in `text` as a run of consecutive characters.
pub open spec fn has_substring(text: Seq<char>, pattern: Seq<char>) -> bool {
    exists|start: int|
        0 <= start && start + pattern.len() <= text.len() && #[trigger] text.subrange(
            start,
            start + pattern.len(),
        ) == pattern
}

/// A scene object below a container, with its name if it has one.
pub struct NamedEntity {
    pub entity: Entity,
    pub name: Option<String>,
}

impl NamedEntity {
    /// Whether the object is named as a slot of the given kind.
    pub open spec fn is_marked(self, locator: Locator) -> bool {
        self.name matches Some(name) && has_substring(name@, marker_of(locator))
    }
}

/// The objects among `descendants` that are named as slots of the given
/// kind, in their order.
pub open spec fn marked_entities(descendants: Seq<NamedEntity>, locator: Locator) -> Seq<Entity> {
    descendants.filter(|d: NamedEntity| d.is_marked(locator)).map_values(|d: NamedEntity| d.entity)
}

/// A slot as a unit sees it when it chooses one: which object it is, of
/// what kind, where it is and which way it faces. The facing is carried
/// through as it was given.
#[derive(Clone, Copy, Debug)]
pub struct LocatorSlot<R> {
    pub entity: Entity,
    pub locator: Locator,
    pub position: Position,
    pub rotation: R,
}

/// The positions of the slots, in their order.
pub open spec fn slot_positions<R>(slots: Seq<LocatorSlot<R>>) -> Seq<Position> {
    Seq::new(slots.len(), |i: int| slots[i].position)
}

/// For each slot, whether it is of the given kind.
pub open spec fn slots_of_kind<R>(slots: Seq<LocatorSlot<R>>, locator: Locator) -> Seq<bool> {
    Seq::new(slots.len(), |i: int| slots[i].locator == locator)
}

/// For each slot, whether it is of the given kind and carries no mark.
pub open spec fn free_slots_of_kind<R>(
    slots: Seq<LocatorSlot<R>>,
    locator: Locator,
    occupied: Set<Entity>,
) -> Seq<bool> {
    Seq::new(
        slots.len(),
        |i: int| slots[i].locator == locator && !occupied.contains(slots[i].entity),
    )
}

/// The slot a unit standing at `from` is given: the nearest free slot of
/// the kind; if every slot of the kind is marked, the nearest of them; none
/// if the container has no slot of the kind. Distances are taken in space,
/// and among equally near slots the first listed is chosen.
pub open spec fn nearest_slot<R>(
    slots: Seq<LocatorSlot<R>>,
    locator: Locator,
    from: Position,
    occupied: Set<Entity>,
) -> Option<int> {
    match first_nearest(slot_positions(slots), free_slots_of_kind(slots, locator, occupied), from) {
        Some(i) => Some(i),
        None => first_nearest(slot_positions(slots), slots_of_kind(slots, locator), from),
    }
}

/// The text that the name of a slot of the given kind contains.
pub fn marker(locator: Locator) -> (text: &'static str)
    ensures
        text@ == marker_of(locator),
{
    match locator {
        Locator::Spawn => "spawn_locator",
        Locator::Interact => "interact_locator",
    }
}

/// Calls `str::contains` of the standard library with a string pattern,
/// which tells whether the pattern matches a sub-slice of the text. For two
/// strings that is the case exactly when the characters of the pattern occur
/// in the text as one run.
#[verifier::external_body]
fn contains_text(text: &str, pattern: &str) -> (found: bool)
    ensures
        found == has_substring(text@, pattern@),
{
    text.contains(pattern)
}

/// Whether an object with this name is a slot of the given kind.
pub fn is_locator_name(name: &str, locator: Locator) -> (marked: bool)
    ensures
        marked == has_substring(name@, marker_of(locator)),
{
    contains_text(name, marker(locator))
}

/// Classifies the objects below a container that has just appeared: those
/// whose name contains the marker of the given kind are its slots of that
/// kind. Objects without a name are none.
pub fn collect_locators_for_container(locator: Locator, descendants: &Vec<NamedEntity>) -> (tagged:
    Vec<Entity>)
    ensures
        tagged@ == marked_entities(descendants@, locator),
{
    let ghost pred = |d: NamedEntity| d.is_marked(locator);
    let ghost pick = |d: NamedEntity| d.entity;
    let mut tagged: Vec<Entity> = Vec::new();
    let mut k: usize = 0;
    proof {
        assert(descendants@.take(0) =~= Seq::<NamedEntity>::empty());
        descendants@.take(0).lemma_filter_len(pred);
        assert(descendants@.take(0).filter(pred) =~= Seq::<NamedEntity>::empty());
        assert(tagged@ =~= descendants@.take(0).filter(pred).map_values(pick));
    }
    while k < descendants.len()
        invariant
            k <= descendants.len(),
            pred == |d: NamedEntity| d.is_marked(locator),
            pick == |d: NamedEntity| d.entity,
            tagged@ == descendants@.take(k as int).filter(pred).map_values(pick),
        decreases descendants.len() - k,
    {
        let marked: bool = match &descendants[k].name {
            Some(name) => is_locator_name(name.as_str(), locator),
            None => false,
        };
        proof {
            let before = descendants@.take(k as int);
            assert(descendants@.take(k + 1) =~= before.push(descendants@[k as int]));
            before.lemma_filter_push(descendants@[k as int], pred);
            assert(marked == pred(descendants@[k as int]));
            if marked {
                assert(before.filter(pred).push(descendants@[k as int]).map_values(pick)
                    =~= before.filter(pred).map_values(pick).push(descendants@[k as int].entity));
            }
        }
        if marked {
            tagged.push(descendants[k].entity);
        }
        k += 1;
    }
    assert(descendants@.take(k as int) =~= descendants@);
    tagged
}

/// The spawn slots among the objects below a spawner that has just
/// appeared.
pub fn collect_spawn_locators(descendants: &Vec<NamedEntity>) -> (tagged: Vec<Entity>)
    ensures
        tagged@ == marked_entities(descendants@, Locator::Spawn),
{
    collect_locators_for_container(Locator::Spawn, descendants)
}

/// The interaction slots among the objects below a container that has just
/// appeared and that units can interact with.
pub fn collect_interact_locators(descendants: &Vec<NamedEntity>) -> (tagged: Vec<Entity>)
    ensures
        tagged@ == marked_entities(descendants@, Locator::Interact),
{
    collect_locators_for_container(Locator::Interact, descendants)
}

/// Chooses the slot for a unit that stands at `from`.
///
/// Only slots of the kind asked for count. The nearest slot that carries no
/// mark is chosen; if every such slot is marked the nearest of them is
/// chosen all the same, so there is a result whenever the container has a
/// slot of the kind. The result gives the slot's position, its facing and
/// the slot itself.
pub fn pick_nearest_locator<R: Copy>(
    locator_in: Locator,
    slots: &Vec<LocatorSlot<R>>,
    from: &Position,
    occupancy: &Occupancy,
) -> (picked: Option<(Position, R, Entity)>)
    ensures
        picked == match nearest_slot(slots@, locator_in, *from, occupancy@.occupied) {
            Some(i) => Some((slots[i].position, slots[i].rotation, slots[i].entity)),
            None => None,
        },
        picked is None <==> forall|i: int| 0 <= i < slots.len() ==> slots[i].locator != locator_in,
{
    let mut points: Vec<Position> = Vec::new();
    let mut of_kind: Vec<bool> = Vec::new();
    let mut free: Vec<bool> = Vec::new();
    let mut k: usize = 0;
    while k < slots.len()
        invariant
            k <= slots.len(),
            points.len() == k,
            of_kind.len() == k,
            free.len() == k,
            forall|j: int| 0 <= j < k ==> points[j] == slots[j].position,
            forall|j: int| 0 <= j < k ==> of_kind[j] == (slots[j].locator == locator_in),
            forall|j: int|
                0 <= j < k ==> free[j] == (slots[j].locator == locator_in
                    && !occupancy@.occupied.contains(slots[j].entity)),
        decreases slots.len() - k,
    {
        let matches: bool = slots[k].locator == locator_in;
        let marked: bool = occupancy.is_occupied(slots[k].entity);
        points.push(slots[k].position);
        of_kind.push(matches);
        free.push(matches && !marked);
        k += 1;
    }
    assert(points@ =~= slot_positions(slots@));
    assert(of_kind@ =~= slots_of_kind(slots@, locator_in));
    assert(free@ =~= free_slots_of_kind(slots@, locator_in, occupancy@.occupied));
    let chosen: Option<usize> = match nearest_eligible(from, &points, &free) {
        Some(i) => Some(i),
        None => nearest_eligible(from, &points, &of_kind),
    };
    match chosen {
        Some(i) => {
            assert(of_kind[i as int]);
            Some((slots[i].position, slots[i].rotation, slots[i].entity))
        },
        None => {
            assert forall|i: int| 0 <= i < slots.len() implies slots[i].locator != locator_in by {
                assert(!of_kind[i]);
            }
            None
        },
    }
}

/// A unit is never left without a slot: where the container has a slot of
/// the kind and every slot of the kind is marked, the slot chosen is the
/// nearest of all slots of the kind.
pub proof fn lemma_fallback_is_nearest<R>(
    slots: Seq<LocatorSlot<R>>,
    locator: Locator,
    from: Position,
    occupied: Set<Entity>,
    witness: int,
)
    requires
        0 <= witness < slots.len(),
        slots[witness].locator == locator,
        forall|i: int|
            0 <= i < slots.len() && slots[i].locator == locator ==> occupied.contains(
                #[trigger] slots[i].entity,
            ),
    ensures
        nearest_slot(slots, locator, from, occupied) matches Some(chosen) && {
            &&& 0 <= chosen < slots.len()
            &&& slots[chosen].locator == locator
            &&& forall|j: int|
                0 <= j < slots.len() && #[trigger] slots[j].locator == locator ==> from.dist_sq(
                    slots[chosen].position,
                ) <= from.dist_sq(slots[j].position)
        },
{
    let points = slot_positions(slots);
    let free = free_slots_of_kind(slots, locator, occupied);
    let kind = slots_of_kind(slots, locator);
    lemma_first_nearest_is_nearest(points, free, from);
    lemma_first_nearest_is_nearest(points, kind, from);
    assert forall|j: int| 0 <= j < free.len() implies !#[trigger] free[j] by {
        if slots[j].locator == locator {
            assert(occupied.contains(slots[j].entity));
        }
    }
    assert(kind[witness]);
    let chosen = first_nearest(points, kind, from).unwrap();
    assert(is_first_nearest(points, kind, from, chosen));
    assert forall|j: int| 0 <= j < slots.len() && #[trigger] slots[j].locator == locator implies
        from.dist_sq(slots[chosen].position) <= from.dist_sq(slots[j].position) by {
        assert(kind[j]);
    }
}

} // verus!
