//! What a unit gathers: the kinds of resource, the shards it carries and
//! the totals delivered to the base.

use crate::geometry::Entity;
use vstd::prelude::*;

verus! {

/// The kinds of deposit a unit can collect from.
#[derive(Clone, Copy, Debug, PartialEq, Eq, Structural)]
pub enum CollectableResource {
    Tealite,
    Purplite,
}

/// An amount of each resource, such as a price.
#[derive(Clone, Copy, Debug, PartialEq, Eq, Structural)]
pub struct BatchOfResources {
    pub purplite: usize,
    pub tealite: usize,
}

impl BatchOfResources {
    pub fn new(purplite: usize, tealite: usize) -> (batch: Self)
        ensures
            batch.purplite == purplite,
            batch.tealite == tealite,
    {
        Self { purplite, tealite }
    }
}

/// Number of shards a freshly built unit carries before it turns back.
pub const SVIN_CARRYING_CAPACITY: usize = 3;

/// What one unit costs.
pub fn svin_price() -> (price: BatchOfResources)
    ensures
        price.purplite == 15,
        price.tealite == 0,
{
    BatchOfResources::new(15, 0)
}

/// The totals delivered so far.
#[derive(Clone, Copy, Debug, PartialEq, Eq, Structural)]
pub struct CollectedResources {
    pub purplite: usize,
    pub tealite: usize,
}

impl Default for CollectedResources {
    fn default() -> (totals: Self)
        ensures
            totals.purplite == 0,
            totals.tealite == 0,
    {
        Self { purplite: 0, tealite: 0 }
    }
}

impl CollectedResources {
    /// Whether the totals cover `price` in every resource.
    pub open spec fn covers(self, price: BatchOfResources) -> bool {
        price.purplite <= self.purplite && price.tealite <= self.tealite
    }

    pub fn is_enough(&self, price: &BatchOfResources) -> (enough: bool)
        ensures
            enough == self.covers(*price),
    {
        price.purplite <= self.purplite && price.tealite <= self.tealite
    }

    /// Whether the totals can take in a load without running over.
    pub open spec fn has_room_for(self, load: ActiveCollecting) -> bool {
        &&& self.purplite + load.shards(CollectableResource::Purplite).len() <= usize::MAX
        &&& self.tealite + load.shards(CollectableResource::Tealite).len() <= usize::MAX
    }

    /// Adds the shards of a load to the totals, kind by kind.
    pub fn deliver(&mut self, load: &ActiveCollecting)
        requires
            old(self).has_room_for(*load),
        ensures
            final(self).purplite == old(self).purplite + load.shards(
                CollectableResource::Purplite,
            ).len(),
            final(self).tealite == old(self).tealite + load.shards(
                CollectableResource::Tealite,
            ).len(),
    {
        self.purplite += load.shards_num_by_type(CollectableResource::Purplite);
        self.tealite += load.shards_num_by_type(CollectableResource::Tealite);
    }

    /// Whether the totals can take in a load without running over.
    pub fn can_take(&self, load: &ActiveCollecting) -> (fits: bool)
        ensures
            fits == self.has_room_for(*load),
    {
        self.purplite.checked_add(load.shards_num_by_type(CollectableResource::Purplite)).is_some()
            && self.tealite.checked_add(
            load.shards_num_by_type(CollectableResource::Tealite),
        ).is_some()
    }

    /// Pays `amount` out of the totals.
    pub fn deduct(&mut self, amount: &BatchOfResources)
        requires
            old(self).covers(*amount),
        ensures
            final(self).purplite == old(self).purplite - amount.purplite,
            final(self).tealite == old(self).tealite - amount.tealite,
    {
        self.purplite -= amount.purplite;
        self.tealite -= amount.tealite;
    }
}

/// The shards a unit holds while it collects, by kind, and the shard the
/// others hang from.
pub struct ActiveCollecting {
    purplite_shard_entities: Vec<Entity>,
    tealite_shard_entities: Vec<Entity>,
    first_shard_entity: Option<Entity>,
}

impl ActiveCollecting {
    /// The shards of one kind, oldest first.
    pub closed spec fn shards(self, resource_type: CollectableResource) -> Seq<Entity> {
        match resource_type {
            CollectableResource::Purplite => self.purplite_shard_entities@,
            CollectableResource::Tealite => self.tealite_shard_entities@,
        }
    }

    /// The shard recorded as the first one.
    pub closed spec fn first_shard(self) -> Option<Entity> {
        self.first_shard_entity
    }

    /// How many shards are held, of both kinds.
    pub open spec fn total_shards(self) -> nat {
        self.shards(CollectableResource::Purplite).len() + self.shards(
            CollectableResource::Tealite,
        ).len()
    }

    /// Whether the number of shards fits the machine's counter.
    pub open spec fn countable(self) -> bool {
        self.total_shards() <= usize::MAX
    }

    /// A unit that holds nothing.
    pub fn new() -> (collecting: Self)
        ensures
            collecting.shards(CollectableResource::Purplite) == Seq::<Entity>::empty(),
            collecting.shards(CollectableResource::Tealite) == Seq::<Entity>::empty(),
            collecting.first_shard().is_none(),
    {
        Self {
            purplite_shard_entities: Vec::new(),
            tealite_shard_entities: Vec::new(),
            first_shard_entity: None,
        }
    }

    /// Records a new shard of the given kind. The first shard ever recorded
    /// stays the first.
    pub fn add_new(&mut self, resource_type: CollectableResource, entity: Entity)
        requires
            old(self).total_shards() < usize::MAX,
        ensures
            final(self).shards(resource_type) == old(self).shards(resource_type).push(entity),
            forall|other: CollectableResource|
                other != resource_type ==> final(self).shards(other) == old(self).shards(other),
            final(self).first_shard() == (if old(self).first_shard().is_none() {
                Some(entity)
            } else {
                old(self).first_shard()
            }),
    {
        match resource_type {
            CollectableResource::Purplite => self.purplite_shard_entities.push(entity),
            CollectableResource::Tealite => self.tealite_shard_entities.push(entity),
        }
        if self.first_shard_entity.is_none() {
            self.first_shard_entity = Some(entity);
        }
    }

    pub fn get_shard_entities(&self, resource_type: CollectableResource) -> (list: &Vec<Entity>)
        ensures
            list@ == self.shards(resource_type),
    {
        match resource_type {
            CollectableResource::Purplite => &self.purplite_shard_entities,
            CollectableResource::Tealite => &self.tealite_shard_entities,
        }
    }

    pub fn get_first_shard_entity(&self) -> (first: Option<Entity>)
        ensures
            first == self.first_shard(),
    {
        self.first_shard_entity
    }

    pub fn shards_num_by_type(&self, resource_type: CollectableResource) -> (n: usize)
        ensures
            n == self.shards(resource_type).len(),
    {
        match resource_type {
            CollectableResource::Purplite => self.purplite_shard_entities.len(),
            CollectableResource::Tealite => self.tealite_shard_entities.len(),
        }
    }

    /// Whether the number of shards fits the machine's counter.
    pub fn is_countable(&self) -> (fits: bool)
        ensures
            fits == self.countable(),
    {
        self.purplite_shard_entities.len().checked_add(self.tealite_shard_entities.len()).is_some()
    }

    pub fn total_shards_num(&self) -> (n: usize)
        requires
            self.countable(),
        ensures
            n == self.total_shards(),
    {
        self.purplite_shard_entities.len() + self.tealite_shard_entities.len()
    }
}

/// The time that passes between two shards, in microseconds.
pub const SHARD_INTERVAL_MICROS: u64 = 1_000_000;

/// What one tick does to the collection of a unit whose tool points at a
/// deposit.
#[derive(Clone, Copy, Debug, PartialEq, Eq, Structural)]
pub enum CollectingStep {
    /// The tool is off: a collection that is under way forgets when it got
    /// its last shard, so that the next switch-on starts the wait anew.
    ResetTimer,
    /// The unit has no collection yet: one begins, empty, and the wait for
    /// the first shard starts now.
    Begin,
    /// Nothing happens: the unit carries all it can, or the wait is not
    /// over.
    Wait,
    /// The collection has forgotten its last shard: the wait starts now.
    StartTimer,
    /// A shard is added and the wait starts anew.
    AddShard,
}

/// What one tick does to a collection: `held` is the number of shards of
/// the collection under way, if there is one, `last_update_micros` the time
/// of its last shard, if it remembers one, and `now_micros` the time of the
/// tick.
pub open spec fn collecting_step_spec(
    activated: bool,
    held: Option<usize>,
    limit: usize,
    last_update_micros: Option<u64>,
    now_micros: u64,
) -> CollectingStep {
    if !activated {
        CollectingStep::ResetTimer
    } else if held is None {
        CollectingStep::Begin
    } else if held.unwrap() >= limit {
        CollectingStep::Wait
    } else if last_update_micros is None {
        CollectingStep::StartTimer
    } else if now_micros - last_update_micros.unwrap() < SHARD_INTERVAL_MICROS {
        CollectingStep::Wait
    } else {
        CollectingStep::AddShard
    }
}

/// Decides what one tick does to the collection of a unit whose tool
/// points at a deposit. A unit gets a shard when its tool runs, it carries
/// fewer shards than its limit, and a second has passed since the last
/// shard or since the wait began.
pub fn collecting_step(
    activated: bool,
    held: Option<usize>,
    limit: usize,
    last_update_micros: Option<u64>,
    now_micros: u64,
) -> (step: CollectingStep)
    ensures
        step == collecting_step_spec(activated, held, limit, last_update_micros, now_micros),
{
    if !activated {
        return CollectingStep::ResetTimer;
    }
    let held: usize = match held {
        Some(held) => held,
        None => {
            return CollectingStep::Begin;
        },
    };
    if held >= limit {
        return CollectingStep::Wait;
    }
    let last: u64 = match last_update_micros {
        Some(last) => last,
        None => {
            return CollectingStep::StartTimer;
        },
    };
    if now_micros < last || now_micros - last < SHARD_INTERVAL_MICROS {
        CollectingStep::Wait
    } else {
        CollectingStep::AddShard
    }
}

/// What a collecting unit is bound by: the base it delivers to, once known,
/// and how many shards it can carry.
#[derive(Clone, Copy, Debug, PartialEq, Eq, Structural)]
pub struct ResourceCollector {
    pub base_building_entity: Option<Entity>,
    pub limit: usize,
}

/// The stages of one collection cycle.
#[derive(Clone, Copy, Debug, PartialEq, Eq, Structural)]
pub enum ResourceCollectionStage {
    MovingToResource,
    CollectingResource,
    MovingToBase,
}

impl Default for ResourceCollectionStage {
    fn default() -> (stage: Self)
        ensures
            stage == ResourceCollectionStage::MovingToResource,
    {
        ResourceCollectionStage::MovingToResource
    }
}

} // verus!
