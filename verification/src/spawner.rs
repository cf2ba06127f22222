//! Spawning units in batches at the spawn slots of a container, and where
//! a new unit may be put.

use crate::geometry::{clamp_coordinate, Entity, Position};
use crate::locator::Locator;
use crate::occupancy::Occupancy;
use vstd::prelude::*;

verus! {

/// Half the height of a unit's footprint.
pub const SVIN_HALF_HEIGHT: i32 = 600;

/// The radius of a unit's footprint.
pub const SVIN_RADIUS: i32 = 500;

/// How far above its slot a unit is put, beyond half its height.
pub const SPAWN_LIFT: i32 = 10;

/// The requests a spawner still has to fill: how many units are wanted for
/// which deposit.
pub struct NpcSpawnTaskResourceCollection {
    pub queue: Vec<(usize, Entity)>,
}

/// Where a unit spawned at the slot `spawn_locator` stands: above the slot
/// by half its height and a little more.
pub open spec fn spawn_position_of(spawn_locator: Position) -> Position {
    Position {
        x: spawn_locator.x,
        y: clamp_coordinate(spawn_locator.y + SVIN_HALF_HEIGHT + SPAWN_LIFT) as i32,
        z: spawn_locator.z,
    }
}

/// Where a unit spawned at the slot `spawn_locator` stands. The caller
/// tests this place for what touches the footprint and against the walkable
/// mesh before it calls [`svin`].
pub fn svin_spawn_position(spawn_locator: &Position) -> (position: Position)
    ensures
        position == spawn_position_of(*spawn_locator),
{
    let lift: i64 = spawn_locator.y as i64 + SVIN_HALF_HEIGHT as i64 + SPAWN_LIFT as i64;
    let y: i32 = if lift > i32::MAX as i64 {
        i32::MAX
    } else {
        lift as i32
    };
    Position { x: spawn_locator.x, y, z: spawn_locator.z }
}

/// Whether a slot is turned down: something touches the footprint of the
/// unit at its place, or the walkable mesh does not contain the place. A
/// test that was not made turns nothing down.
pub open spec fn slot_rejected(footprint_blocked: Option<bool>, on_navmesh: Option<bool>) -> bool {
    footprint_blocked == Some(true) || on_navmesh == Some(false)
}

/// Decides whether a unit is put at the slot `spawn_locator`, and where.
/// The slot is turned down if the footprint of the unit would touch
/// something, or if its place is outside the walkable mesh.
pub fn svin(spawn_locator: &Position, footprint_blocked: Option<bool>, on_navmesh: Option<bool>) -> (placed:
    Option<Position>)
    ensures
        placed is None <==> slot_rejected(footprint_blocked, on_navmesh),
        placed matches Some(position) ==> position == spawn_position_of(*spawn_locator),
{
    match footprint_blocked {
        Some(true) => {
            return None;
        },
        _ => {},
    }
    match on_navmesh {
        Some(false) => {
            return None;
        },
        _ => {},
    }
    Some(svin_spawn_position(spawn_locator))
}

/// A slot below a spawner, as it was found for one request.
#[derive(Clone, Copy, Debug, PartialEq, Eq, Structural)]
pub struct SpawnProbe {
    pub locator_entity: Entity,
    pub locator: Locator,
    /// Something touches the footprint of a unit put there.
    pub footprint_blocked: bool,
    /// The walkable mesh contains the place of a unit put there.
    pub on_navmesh: bool,
    /// A path from there to the nearest interaction slot of the deposit
    /// could be planned.
    pub routable: bool,
}

/// One request of a spawner with the slots found for it.
pub struct SpawnBatch {
    pub remaining: usize,
    pub resource_entity: Entity,
    pub slots: Vec<SpawnProbe>,
}

/// A unit to be spawned.
#[derive(Clone, Copy, Debug, PartialEq, Eq, Structural)]
pub struct SpawnOrder {
    /// The place of the request in the queue.
    pub batch: usize,
    /// The place of the slot in the list of the request.
    pub slot: usize,
    /// The slot to put it at.
    pub locator_entity: Entity,
    /// The deposit of the request it was spawned for.
    pub resource_entity: Entity,
    /// Whether it gets the task to collect from the deposit and the path
    /// to it. A unit for which no path could be planned is spawned without,
    /// and does not count for the request.
    pub tasked: bool,
}

/// What one pass over the requests of a spawner gives: the units to spawn,
/// in order, and the requests that stay, each with the number still wanted.
pub struct SpawnPass {
    pub orders: Vec<SpawnOrder>,
    pub leftovers: Vec<(usize, Entity)>,
}

impl SpawnProbe {
    /// Whether a unit can be put at the slot: it is a spawn slot, it
    /// carries no mark and it is not turned down.
    pub open spec fn usable(self, occupied: Set<Entity>) -> bool {
        &&& self.locator == Locator::Spawn
        &&& !occupied.contains(self.locator_entity)
        &&& !slot_rejected(Some(self.footprint_blocked), Some(self.on_navmesh))
    }

    /// Whether a unit put at the slot counts for its request.
    pub open spec fn ready(self, occupied: Set<Entity>) -> bool {
        self.usable(occupied) && self.routable
    }
}

/// The first slot at which a single unit can be put: the first spawn slot
/// that is not turned down and, if marks count, carries none.
pub open spec fn first_open_slot(slots: Seq<SpawnProbe>, occupied: Option<Set<Entity>>, i: int) -> bool {
    &&& 0 <= i < slots.len()
    &&& slots[i].usable(free_of(occupied))
    &&& forall|j: int| 0 <= j < i ==> !#[trigger] slots[j].usable(free_of(occupied))
}

/// The marked slots that count: none where marks are not looked at.
pub open spec fn free_of(occupied: Option<Set<Entity>>) -> Set<Entity> {
    match occupied {
        Some(marked) => marked,
        None => Set::empty(),
    }
}

/// The marks that count for [`pick_spawn_slot`].
pub open spec fn marks_of(occupancy: Option<&Occupancy>) -> Option<Set<Entity>> {
    match occupancy {
        Some(store) => Some(store@.occupied),
        None => None,
    }
}

/// Chooses the slot for a single new unit: the first spawn slot in the
/// list that is not turned down. With `occupancy` given, slots that carry a
/// mark are passed over as well. There is none if no slot qualifies.
pub fn pick_spawn_slot(slots: &Vec<SpawnProbe>, occupancy: Option<&Occupancy>) -> (picked: Option<
    usize,
>)
    ensures
        picked matches Some(i) ==> first_open_slot(slots@, marks_of(occupancy), i as int),
        picked is None ==> forall|j: int|
            0 <= j < slots.len() ==> !#[trigger] slots[j].usable(free_of(marks_of(occupancy))),
{
    let mut k: usize = 0;
    while k < slots.len()
        invariant
            k <= slots.len(),
            forall|j: int|
                0 <= j < k ==> !#[trigger] slots[j].usable(free_of(marks_of(occupancy))),
        decreases slots.len() - k,
    {
        let slot: SpawnProbe = slots[k];
        let marked: bool = match occupancy {
            Some(store) => store.is_occupied(slot.locator_entity),
            None => false,
        };
        if slot.locator == Locator::Spawn && !marked && !slot.footprint_blocked && slot.on_navmesh {
            return Some(k);
        }
        k += 1;
    }
    None
}

/// How many of the first `n` slots give a unit that counts.
pub open spec fn ready_before(slots: Seq<SpawnProbe>, occupied: Set<Entity>, n: int) -> nat
    decreases n,
{
    if n <= 0 {
        0
    } else {
        ready_before(slots, occupied, n - 1) + (if slots[n - 1].ready(occupied) {
            1nat
        } else {
            0nat
        })
    }
}

/// Whether a unit is spawned at slot `i` for a request of `wanted` units:
/// the slot is usable and fewer than `wanted` units that count came from
/// the slots before it.
pub open spec fn spawns_at(
    slots: Seq<SpawnProbe>,
    occupied: Set<Entity>,
    wanted: nat,
    i: int,
) -> bool {
    slots[i].usable(occupied) && ready_before(slots, occupied, i) < wanted
}

/// The units spawned at the first `n` slots for one request, in the order
/// of the slots.
pub open spec fn orders_upto(
    slots: Seq<SpawnProbe>,
    occupied: Set<Entity>,
    wanted: nat,
    resource_entity: Entity,
    batch: usize,
    n: int,
) -> Seq<SpawnOrder>
    decreases n,
{
    if n <= 0 {
        Seq::empty()
    } else {
        let before = orders_upto(slots, occupied, wanted, resource_entity, batch, n - 1);
        if spawns_at(slots, occupied, wanted, n - 1) {
            before.push(
                SpawnOrder {
                    batch,
                    slot: (n - 1) as usize,
                    locator_entity: slots[n - 1].locator_entity,
                    resource_entity,
                    tasked: slots[n - 1].routable,
                },
            )
        } else {
            before
        }
    }
}

/// How many units of a request are still wanted after the pass.
pub open spec fn still_wanted(slots: Seq<SpawnProbe>, occupied: Set<Entity>, wanted: nat) -> nat {
    let ready = ready_before(slots, occupied, slots.len() as int);
    if ready < wanted {
        (wanted - ready) as nat
    } else {
        0
    }
}

impl SpawnBatch {
    /// The units spawned for the request, which stands at place `batch` in
    /// the queue.
    pub open spec fn orders(self, occupied: Set<Entity>, batch: usize) -> Seq<SpawnOrder> {
        orders_upto(
            self.slots@,
            occupied,
            self.remaining as nat,
            self.resource_entity,
            batch,
            self.slots@.len() as int,
        )
    }

    /// The request that stays, if units are still wanted.
    pub open spec fn leftover(self, occupied: Set<Entity>) -> Seq<(usize, Entity)> {
        let left = still_wanted(self.slots@, occupied, self.remaining as nat);
        if left > 0 {
            seq![(left as usize, self.resource_entity)]
        } else {
            Seq::empty()
        }
    }
}

/// The units spawned for the first `n` requests, and the requests that
/// stay of them.
pub open spec fn pass_upto(batches: Seq<SpawnBatch>, occupied: Set<Entity>, n: int) -> (
    Seq<SpawnOrder>,
    Seq<(usize, Entity)>,
)
    decreases n,
{
    if n <= 0 {
        (Seq::empty(), Seq::empty())
    } else {
        let (orders, leftovers) = pass_upto(batches, occupied, n - 1);
        (
            orders + batches[n - 1].orders(occupied, (n - 1) as usize),
            leftovers + batches[n - 1].leftover(occupied),
        )
    }
}

/// A request is never left with more than was wanted, and what is left and
/// what counted add up to it unless more slots were ready than wanted.
pub proof fn lemma_leftover_bounded(slots: Seq<SpawnProbe>, occupied: Set<Entity>, wanted: nat)
    ensures
        still_wanted(slots, occupied, wanted) <= wanted,
        ready_before(slots, occupied, slots.len() as int) <= slots.len(),
        still_wanted(slots, occupied, wanted) == 0 <==> ready_before(
            slots,
            occupied,
            slots.len() as int,
        ) >= wanted,
{
    lemma_ready_bounded(slots, occupied, slots.len() as int);
}

proof fn lemma_ready_bounded(slots: Seq<SpawnProbe>, occupied: Set<Entity>, n: int)
    requires
        0 <= n,
    ensures
        ready_before(slots, occupied, n) <= n,
    decreases n,
{
    if n > 0 {
        lemma_ready_bounded(slots, occupied, n - 1);
    }
}

/// One pass over one request: goes through the slots in their order and
/// spawns a unit at each usable one until as many as wanted count.
fn spawn_batch(
    batch: &SpawnBatch,
    place: usize,
    occupancy: &Occupancy,
    orders: &mut Vec<SpawnOrder>,
) -> (left: usize)
    ensures
        final(orders)@ == old(orders)@ + batch.orders(occupancy@.occupied, place),
        left == still_wanted(batch.slots@, occupancy@.occupied, batch.remaining as nat),
{
    let ghost occupied = occupancy@.occupied;
    let ghost wanted = batch.remaining as nat;
    let mut ready: usize = 0;
    let mut k: usize = 0;
    assert(orders@ =~= old(orders)@ + orders_upto(
        batch.slots@,
        occupied,
        wanted,
        batch.resource_entity,
        place,
        0,
    ));
    while k < batch.slots.len()
        invariant
            k <= batch.slots.len(),
            occupied == occupancy@.occupied,
            wanted == batch.remaining as nat,
            ready == ready_before(batch.slots@, occupied, k as int),
            ready <= k,
            orders@ == old(orders)@ + orders_upto(
                batch.slots@,
                occupied,
                wanted,
                batch.resource_entity,
                place,
                k as int,
            ),
        decreases batch.slots.len() - k,
    {
        let slot: SpawnProbe = batch.slots[k];
        let usable: bool = slot.locator == Locator::Spawn && !occupancy.is_occupied(
            slot.locator_entity,
        ) && !slot.footprint_blocked && slot.on_navmesh;
        assert(usable == slot.usable(occupied));
        if usable && ready < batch.remaining {
            let ghost before = orders@;
            let order = SpawnOrder {
                batch: place,
                slot: k,
                locator_entity: slot.locator_entity,
                resource_entity: batch.resource_entity,
                tasked: slot.routable,
            };
            orders.push(order);
            assert(orders@ =~= old(orders)@ + orders_upto(
                batch.slots@,
                occupied,
                wanted,
                batch.resource_entity,
                place,
                k as int,
            ).push(order));
        }
        if usable && slot.routable {
            ready += 1;
        }
        k += 1;
    }
    if ready < batch.remaining {
        batch.remaining - ready
    } else {
        0
    }
}

/// One pass over the requests of a spawner.
///
/// For each request the slots below the spawner are gone through in their
/// order. A unit is spawned at every spawn slot that carries no mark, whose
/// place is in the walkable mesh and where the unit's footprint touches
/// nothing, until as many units as wanted have got their task and their
/// path. A request that is not filled stays with the number still wanted;
/// one that is filled is dropped.
pub fn spawn_task_resource_collection(batches: &Vec<SpawnBatch>, occupancy: &Occupancy) -> (pass:
    SpawnPass)
    ensures
        pass.orders@ == pass_upto(batches@, occupancy@.occupied, batches.len() as int).0,
        pass.leftovers@ == pass_upto(batches@, occupancy@.occupied, batches.len() as int).1,
{
    let mut orders: Vec<SpawnOrder> = Vec::new();
    let mut leftovers: Vec<(usize, Entity)> = Vec::new();
    let mut b: usize = 0;
    while b < batches.len()
        invariant
            b <= batches.len(),
            orders@ == pass_upto(batches@, occupancy@.occupied, b as int).0,
            leftovers@ == pass_upto(batches@, occupancy@.occupied, b as int).1,
        decreases batches.len() - b,
    {
        let ghost kept = leftovers@;
        let left: usize = spawn_batch(&batches[b], b, occupancy, &mut orders);
        if left > 0 {
            leftovers.push((left, batches[b].resource_entity));
        }
        assert(leftovers@ =~= kept + batches[b as int].leftover(occupancy@.occupied));
        b += 1;
    }
    SpawnPass { orders, leftovers }
}

impl SpawnPass {
    /// The queue the spawner keeps: none once every request is filled.
    pub fn into_queue(self) -> (queue: Option<NpcSpawnTaskResourceCollection>)
        ensures
            queue is None <==> self.leftovers@.len() == 0,
            queue matches Some(task) ==> task.queue@ == self.leftovers@,
    {
        if self.leftovers.len() == 0 {
            None
        } else {
            Some(NpcSpawnTaskResourceCollection { queue: self.leftovers })
        }
    }
}

} // verus!
