//! The resource-collection task: a unit walks to a deposit, collects until
//! it can carry no more, walks to its base and starts over.
//!
//! Each tick the unit's surroundings are summed up in a few signals, and
//! [`update_task_resource_collection`] answers with an order. Orders that
//! ask for a path are carried out by the caller, who reports back through
//! [`NpcTaskResourceCollection::conclude`].

use crate::geometry::{all_eligible, first_nearest, nearest_eligible, Entity, Position};
use crate::handheld::Handheld;
use crate::resource_collection::{ActiveCollecting, ResourceCollectionStage, ResourceCollector};
use vstd::prelude::*;

verus! {

/// The task of one unit: where in the cycle it is and which deposit it
/// works on.
#[derive(Clone, Copy, Debug, PartialEq, Eq, Structural)]
pub struct NpcTaskResourceCollection {
    pub stage: ResourceCollectionStage,
    pub resource_entity: Option<Entity>,
}

impl Default for NpcTaskResourceCollection {
    fn default() -> (task: Self)
        ensures
            task.stage == ResourceCollectionStage::MovingToResource,
            task.resource_entity.is_none(),
    {
        Self { stage: ResourceCollectionStage::MovingToResource, resource_entity: None }
    }
}

/// What the movement of a unit reports at the start of a tick.
#[derive(Clone, Copy, Debug, PartialEq, Eq, Structural)]
pub struct TaskSignals {
    /// The unit holds the marker of a finished move.
    pub move_finished: bool,
    /// While a move is in flight: whether its final approach is blocked.
    pub move_obstructed: Option<bool>,
}

/// A container that units can interact with, and where it stands.
#[derive(Clone, Copy, Debug, PartialEq, Eq, Structural)]
pub struct Interactable {
    pub entity: Entity,
    pub position: Position,
}

/// What the task asks for in one tick.
#[derive(Clone, Copy, Debug, PartialEq, Eq, Structural)]
pub enum TaskOrder {
    /// Nothing changes.
    Idle,
    /// The unit has reached the deposit: its tool is switched on and the
    /// marker of the finished move is to be taken away.
    BeginCollecting,
    /// The way to the deposit is blocked: a fresh path to the nearest
    /// interaction slot of `container` is wanted.
    Replan { container: Entity },
    /// The unit carries all it can: its tool is switched off.
    FinishCollecting,
    /// The trip to the base is over: the marker of the finished move is to
    /// be taken away and a path back to the nearest interaction slot of
    /// `container` is wanted.
    ReturnToResource { container: Entity },
    /// A path to the nearest interaction slot of `base` is wanted.
    GoToBase { base: Entity },
}

/// What to do with the path that was planned for an order.
#[derive(Clone, Copy, Debug, PartialEq, Eq, Structural)]
pub enum PathUse {
    /// There is no path to use, or the order asked for none.
    Nothing,
    /// The path replaces the one of the move in flight.
    ReplacePath,
    /// The path is assigned and a new move starts.
    StartMove,
}

/// The positions of the containers, in their order.
pub open spec fn positions_of(containers: Seq<Interactable>) -> Seq<Position> {
    Seq::new(containers.len(), |i: int| containers[i].position)
}

/// The container nearest to `from` in space, the first listed among equally
/// near ones.
pub open spec fn nearest_interactable_spec(from: Position, containers: Seq<Interactable>) -> Option<
    Entity,
> {
    match first_nearest(positions_of(containers), all_eligible(containers.len()), from) {
        Some(i) => Some(containers[i].entity),
        None => None,
    }
}

/// The base a unit delivers to: the one it remembers, else the nearest
/// container.
pub open spec fn resolved_base(
    collector: ResourceCollector,
    from: Position,
    containers: Seq<Interactable>,
) -> Option<Entity> {
    match collector.base_building_entity {
        Some(base) => Some(base),
        None => nearest_interactable_spec(from, containers),
    }
}

/// The number of shards of an active collection.
pub open spec fn shards_held(collecting: Option<&ActiveCollecting>) -> Option<nat> {
    match collecting {
        Some(c) => Some(c.total_shards()),
        None => None,
    }
}

/// The order a unit gets, as a function of its task, its collector, the
/// signals of its movement, the shards of its active collection (if one is
/// active), where it stands and the containers it may deliver to.
pub open spec fn decide(
    task: NpcTaskResourceCollection,
    collector: ResourceCollector,
    signals: TaskSignals,
    held: Option<nat>,
    from: Position,
    containers: Seq<Interactable>,
) -> TaskOrder {
    match task.stage {
        ResourceCollectionStage::MovingToResource => {
            if signals.move_finished {
                TaskOrder::BeginCollecting
            } else if signals.move_obstructed == Some(true) {
                TaskOrder::Replan { container: task.resource_entity.unwrap() }
            } else {
                TaskOrder::Idle
            }
        },
        ResourceCollectionStage::CollectingResource => {
            if held is Some && held.unwrap() >= collector.limit {
                TaskOrder::FinishCollecting
            } else {
                TaskOrder::Idle
            }
        },
        ResourceCollectionStage::MovingToBase => {
            if signals.move_obstructed is Some && !signals.move_finished {
                TaskOrder::Idle
            } else if signals.move_obstructed is None && (signals.move_finished || held is None) {
                TaskOrder::ReturnToResource { container: task.resource_entity.unwrap() }
            } else {
                TaskOrder::GoToBase { base: resolved_base(collector, from, containers).unwrap() }
            }
        },
    }
}

/// The inputs on which a unit is malformed: it is asked to walk to a
/// deposit that its task does not name, or to a base although it holds no
/// active collection or no container exists.
pub open spec fn malformed(
    task: NpcTaskResourceCollection,
    collector: ResourceCollector,
    signals: TaskSignals,
    held: Option<nat>,
    from: Position,
    containers: Seq<Interactable>,
) -> bool {
    match decide(task, collector, signals, held, from, containers) {
        TaskOrder::Replan { .. } | TaskOrder::ReturnToResource { .. } => task.resource_entity is None,
        TaskOrder::GoToBase { .. } => held is None || (collector.base_building_entity is None
            && containers.len() == 0),
        _ => false,
    }
}

impl TaskOrder {
    /// Whether the order asks the caller to plan a path.
    pub open spec fn wants_path(self) -> bool {
        self is Replan || self is ReturnToResource || self is GoToBase
    }

    /// The container whose nearest interaction slot the path leads to.
    pub open spec fn destination(self) -> Option<Entity> {
        match self {
            TaskOrder::Replan { container } => Some(container),
            TaskOrder::ReturnToResource { container } => Some(container),
            TaskOrder::GoToBase { base } => Some(base),
            _ => None,
        }
    }

    /// The container to plan a path to, where the order asks for one.
    pub fn path_destination(&self) -> (container: Option<Entity>)
        ensures
            container == self.destination(),
            container is Some <==> self.wants_path(),
    {
        match self {
            TaskOrder::Replan { container } => Some(*container),
            TaskOrder::ReturnToResource { container } => Some(*container),
            TaskOrder::GoToBase { base } => Some(*base),
            _ => None,
        }
    }

    /// Whether the marker of the finished move is to be taken away.
    pub fn consumes_arrival(&self) -> (consumed: bool)
        ensures
            consumed == (self is BeginCollecting || self is ReturnToResource),
    {
        match self {
            TaskOrder::BeginCollecting => true,
            TaskOrder::ReturnToResource { .. } => true,
            _ => false,
        }
    }
}

impl NpcTaskResourceCollection {
    /// The task once `order` has been given.
    pub open spec fn ordered(self, order: TaskOrder) -> NpcTaskResourceCollection {
        match order {
            TaskOrder::BeginCollecting => NpcTaskResourceCollection {
                stage: ResourceCollectionStage::CollectingResource,
                ..self
            },
            TaskOrder::FinishCollecting => NpcTaskResourceCollection {
                stage: ResourceCollectionStage::MovingToBase,
                ..self
            },
            _ => self,
        }
    }

    /// The task once the caller has tried to plan the path that `order`
    /// asked for, and has got one or not.
    pub open spec fn concluded(self, order: TaskOrder, planned: bool) -> NpcTaskResourceCollection {
        if order is ReturnToResource && planned {
            NpcTaskResourceCollection { stage: ResourceCollectionStage::MovingToResource, ..self }
        } else {
            self
        }
    }

    /// What becomes of the path planned for `order`.
    pub open spec fn path_use(order: TaskOrder, planned: bool) -> PathUse {
        if !planned {
            PathUse::Nothing
        } else {
            match order {
                TaskOrder::Replan { .. } => PathUse::ReplacePath,
                TaskOrder::ReturnToResource { .. } => PathUse::StartMove,
                TaskOrder::GoToBase { .. } => PathUse::StartMove,
                _ => PathUse::Nothing,
            }
        }
    }

    /// A fresh task for the deposit `resource_entity`.
    pub fn new(resource_entity: Option<Entity>) -> (task: Self)
        ensures
            task.stage == ResourceCollectionStage::MovingToResource,
            task.resource_entity == resource_entity,
    {
        Self { stage: ResourceCollectionStage::MovingToResource, resource_entity }
    }

    /// Takes in whether the path that `order` asked for could be planned.
    /// Only a planned return to the deposit moves the stage: the cycle starts
    /// over. Without a path the task stays as it is and the order comes
    /// again next tick.
    pub fn conclude(&mut self, order: &TaskOrder, planned: bool) -> (usage: PathUse)
        ensures
            *final(self) == old(self).concluded(*order, planned),
            usage == Self::path_use(*order, planned),
    {
        if !planned {
            return PathUse::Nothing;
        }
        match order {
            TaskOrder::Replan { .. } => PathUse::ReplacePath,
            TaskOrder::ReturnToResource { .. } => {
                self.stage = ResourceCollectionStage::MovingToResource;
                PathUse::StartMove
            },
            TaskOrder::GoToBase { .. } => PathUse::StartMove,
            _ => PathUse::Nothing,
        }
    }
}

impl ResourceCollector {
    /// The collector once `order` has been given: a base it is sent to is
    /// remembered.
    pub open spec fn ordered(self, order: TaskOrder) -> ResourceCollector {
        match order {
            TaskOrder::GoToBase { base } => ResourceCollector {
                base_building_entity: Some(base),
                ..self
            },
            _ => self,
        }
    }
}

/// The task after one tick: the order is given and the caller has tried to
/// plan the path it asked for.
pub open spec fn task_after_tick(
    task: NpcTaskResourceCollection,
    collector: ResourceCollector,
    signals: TaskSignals,
    held: Option<nat>,
    from: Position,
    containers: Seq<Interactable>,
    planned: bool,
) -> NpcTaskResourceCollection {
    let order = decide(task, collector, signals, held, from, containers);
    task.ordered(order).concluded(order, planned)
}

/// While a move is in flight and its final approach is free, and while a
/// collection has not reached the limit, the task waits: nothing is ordered
/// and the stage stays.
pub proof fn lemma_task_waits(
    task: NpcTaskResourceCollection,
    collector: ResourceCollector,
    held: Option<nat>,
    from: Position,
    containers: Seq<Interactable>,
    planned: bool,
)
    ensures
        ({
            let moving = TaskSignals { move_finished: false, move_obstructed: Some(false) };
            task.stage != ResourceCollectionStage::CollectingResource ==> decide(
                task,
                collector,
                moving,
                held,
                from,
                containers,
            ) == TaskOrder::Idle && task_after_tick(
                task,
                collector,
                moving,
                held,
                from,
                containers,
                planned,
            ) == task
        }),
        forall|signals: TaskSignals|
            task.stage == ResourceCollectionStage::CollectingResource && (held is None
                || held.unwrap() < collector.limit) ==> #[trigger] decide(
                task,
                collector,
                signals,
                held,
                from,
                containers,
            ) == TaskOrder::Idle,
{
}

/// The cycle closes: a unit on its way to a deposit, whose moves are
/// never blocked and whose paths can be planned, goes once round the cycle
/// in four orders. The finished move starts the collection; the full load
/// turns it to the base; without a move it is sent to its base; the finished
/// move to the base sends it back to the same deposit, on its way to it as at
/// the start. Between these ticks the task waits (see [`lemma_task_waits`]),
/// for as long as the unit needs to walk its path and to fill its load.
pub proof fn lemma_task_cycle_closes(
    task: NpcTaskResourceCollection,
    collector: ResourceCollector,
    load: nat,
    from: Position,
    containers: Seq<Interactable>,
)
    requires
        task.stage == ResourceCollectionStage::MovingToResource,
        task.resource_entity is Some,
        load >= collector.limit,
        collector.base_building_entity is Some || containers.len() > 0,
    ensures
        ({
            let arrived = TaskSignals { move_finished: true, move_obstructed: None };
            let standing = TaskSignals { move_finished: false, move_obstructed: None };
            let collecting = task_after_tick(task, collector, arrived, None, from, containers, true);
            let loaded = task_after_tick(
                collecting,
                collector,
                standing,
                Some(load),
                from,
                containers,
                true,
            );
            let to_base = decide(loaded, collector, standing, Some(load), from, containers);
            let leaving = task_after_tick(
                loaded,
                collector,
                standing,
                Some(load),
                from,
                containers,
                true,
            );
            let back = decide(
                leaving,
                collector.ordered(to_base),
                arrived,
                Some(load),
                from,
                containers,
            );
            let restarted = task_after_tick(
                leaving,
                collector.ordered(to_base),
                arrived,
                Some(load),
                from,
                containers,
                true,
            );
            &&& decide(task, collector, arrived, None, from, containers)
                == TaskOrder::BeginCollecting
            &&& collecting.stage == ResourceCollectionStage::CollectingResource
            &&& decide(collecting, collector, standing, Some(load), from, containers)
                == TaskOrder::FinishCollecting
            &&& loaded.stage == ResourceCollectionStage::MovingToBase
            &&& to_base == (TaskOrder::GoToBase {
                base: resolved_base(collector, from, containers).unwrap(),
            })
            &&& leaving.stage == ResourceCollectionStage::MovingToBase
            &&& back == (TaskOrder::ReturnToResource { container: task.resource_entity.unwrap() })
            &&& restarted == task
        }),
{
}

/// The container nearest to `from` in space, the first listed among equally
/// near ones; none where the list is empty.
pub fn nearest_interactable(from: &Position, containers: &Vec<Interactable>) -> (nearest: Option<
    Entity,
>)
    ensures
        nearest == nearest_interactable_spec(*from, containers@),
        nearest is None <==> containers.len() == 0,
{
    let mut points: Vec<Position> = Vec::new();
    let mut eligible: Vec<bool> = Vec::new();
    let mut k: usize = 0;
    while k < containers.len()
        invariant
            k <= containers.len(),
            points.len() == k,
            eligible.len() == k,
            forall|j: int| 0 <= j < k ==> points[j] == containers[j].position,
            forall|j: int| 0 <= j < k ==> eligible[j],
        decreases containers.len() - k,
    {
        points.push(containers[k].position);
        eligible.push(true);
        k += 1;
    }
    assert(points@ =~= positions_of(containers@));
    assert(eligible@ =~= all_eligible(containers@.len()));
    match nearest_eligible(from, &points, &eligible) {
        Some(i) => Some(containers[i].entity),
        None => {
            assert(containers.len() > 0 ==> eligible[0]);
            None
        },
    }
}

/// Whether the unit is malformed for the order it would get. Callers that
/// cannot rule this out ask here first and give up on such a unit.
pub fn is_malformed(
    task: &NpcTaskResourceCollection,
    collector: &ResourceCollector,
    signals: &TaskSignals,
    collecting: Option<&ActiveCollecting>,
    npc_position: &Position,
    containers: &Vec<Interactable>,
) -> (broken: bool)
    ensures
        broken == malformed(
            *task,
            *collector,
            *signals,
            shards_held(collecting),
            *npc_position,
            containers@,
        ),
{
    match task.stage {
        ResourceCollectionStage::MovingToResource => {
            let blocked: bool = match signals.move_obstructed {
                Some(true) => true,
                _ => false,
            };
            !signals.move_finished && blocked && task.resource_entity.is_none()
        },
        ResourceCollectionStage::CollectingResource => false,
        ResourceCollectionStage::MovingToBase => {
            let moving: bool = signals.move_obstructed.is_some();
            if moving && !signals.move_finished {
                false
            } else if !moving && (signals.move_finished || collecting.is_none()) {
                task.resource_entity.is_none()
            } else {
                collecting.is_none() || (collector.base_building_entity.is_none()
                    && containers.len() == 0)
            }
        },
    }
}

/// One tick of the task of one unit.
///
/// - On the way to the deposit: a finished move starts the collection, the
///   tool is switched on; a blocked final approach asks for a fresh path.
/// - Collecting: once the shards held reach the collector's limit the unit
///   turns to its base and the tool is switched off.
/// - On the way to the base: while the move is in flight nothing happens.
///   Without a move, after a finished one or with no active collection, the
///   unit is sent back to the deposit. Otherwise it is sent to the base it
///   remembers, or to the nearest container, which it then remembers.
///
/// A unit that is malformed for its order is left out: its caller gives up
/// on it before the call.
pub fn update_task_resource_collection(
    task: &mut NpcTaskResourceCollection,
    collector: &mut ResourceCollector,
    handheld: &mut Handheld,
    signals: &TaskSignals,
    collecting: Option<&ActiveCollecting>,
    npc_position: &Position,
    containers: &Vec<Interactable>,
) -> (order: TaskOrder)
    requires
        collecting matches Some(c) ==> c.countable(),
        !malformed(
            *old(task),
            *old(collector),
            *signals,
            shards_held(collecting),
            *npc_position,
            containers@,
        ),
    ensures
        order == decide(
            *old(task),
            *old(collector),
            *signals,
            shards_held(collecting),
            *npc_position,
            containers@,
        ),
        *final(task) == old(task).ordered(order),
        *final(collector) == old(collector).ordered(order),
        order is BeginCollecting ==> old(handheld).switched_on(*final(handheld)),
        order is FinishCollecting ==> old(handheld).switched_off(*final(handheld)),
        !(order is BeginCollecting || order is FinishCollecting) ==> *final(handheld) == *old(
            handheld,
        ),
{
    match task.stage {
        ResourceCollectionStage::MovingToResource => {
            if signals.move_finished {
                task.stage = ResourceCollectionStage::CollectingResource;
                handheld.activate();
                TaskOrder::BeginCollecting
            } else {
                match signals.move_obstructed {
                    Some(true) => match task.resource_entity {
                        Some(container) => TaskOrder::Replan { container },
                        None => TaskOrder::Idle,
                    },
                    _ => TaskOrder::Idle,
                }
            }
        },
        ResourceCollectionStage::CollectingResource => {
            let full: bool = match collecting {
                Some(c) => c.total_shards_num() >= collector.limit,
                None => false,
            };
            if full {
                task.stage = ResourceCollectionStage::MovingToBase;
                handheld.deactivate();
                TaskOrder::FinishCollecting
            } else {
                TaskOrder::Idle
            }
        },
        ResourceCollectionStage::MovingToBase => {
            let moving: bool = signals.move_obstructed.is_some();
            if moving && !signals.move_finished {
                TaskOrder::Idle
            } else if !moving && (signals.move_finished || collecting.is_none()) {
                match task.resource_entity {
                    Some(container) => TaskOrder::ReturnToResource { container },
                    None => TaskOrder::Idle,
                }
            } else {
                let base: Option<Entity> = match collector.base_building_entity {
                    Some(base) => Some(base),
                    None => nearest_interactable(npc_position, containers),
                };
                match base {
                    Some(base) => {
                        collector.base_building_entity = Some(base);
                        TaskOrder::GoToBase { base }
                    },
                    None => TaskOrder::Idle,
                }
            }
        },
    }
}

} // verus!
