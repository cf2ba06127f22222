//! Orders given by the player: a click sends the selected units to a
//! container or to a point on the ground.

use crate::geometry::{Entity, Position};
use crate::locator::{nearest_slot, pick_nearest_locator, Locator, LocatorSlot};
use crate::occupancy::Occupancy;
use crate::path::{
    plan_path, request_path_to_point, request_to_nearest, MovePath, NavmeshAnswer, PathRequest,
    PathView,
};
use crate::resource_collection::ResourceCollectionStage;
use crate::task::NpcTaskResourceCollection;
use vstd::prelude::*;

verus! {

/// What the player clicked on.
pub struct Click<R> {
    /// The object under the pointer.
    pub entity: Entity,
    /// The point under the pointer.
    pub position: Position,
    /// The slots below the object, if it is a container that units can
    /// interact with.
    pub interact_slots: Option<Vec<LocatorSlot<R>>>,
    /// Whether the object is a deposit.
    pub collectable: bool,
    /// Whether the object is one of the selected units.
    pub selected_unit: bool,
}

/// What becomes of the task of a unit that is sent somewhere.
#[derive(Clone, Copy, Debug, PartialEq, Eq, Structural)]
pub enum TaskChange {
    /// The unit keeps the task it has, or none.
    Keep,
    /// The unit starts to collect from a deposit.
    Assign { task: NpcTaskResourceCollection },
    /// The unit drops its task and its tool is switched off.
    Cancel,
}

/// What a click asks of one selected unit: the path to ask the walkable
/// mesh for, the point to show as the target of the click, and the change
/// of task that goes with the move.
#[derive(Clone, Copy, Debug)]
pub struct ClickOrder<R> {
    pub request: PathRequest<R>,
    pub shown_at: Position,
    pub task: TaskChange,
}

/// A move that was accepted: the new path of the unit, the point to show
/// as the target of the click, and the change of task.
pub struct ClickMove<R> {
    pub path: MovePath<R>,
    pub shown_at: Position,
    pub task: TaskChange,
}

impl<R> Click<R> {
    /// Whether the click is on a container without a single interaction
    /// slot. Such a container is malformed.
    pub open spec fn malformed(self) -> bool {
        self.interact_slots matches Some(slots) && forall|i: int|
            0 <= i < slots@.len() ==> slots@[i].locator != Locator::Interact
    }

    /// What the click asks of a selected unit that stands at `from`.
    pub open spec fn order_for(self, from: Position, occupied: Set<Entity>) -> Option<ClickOrder<R>> {
        if self.selected_unit {
            None
        } else {
            match self.interact_slots {
                Some(slots) => match request_to_nearest(Locator::Interact, slots@, from, occupied) {
                    Some(request) => Some(
                        ClickOrder {
                            request,
                            shown_at: slots@[nearest_slot(
                                slots@,
                                Locator::Interact,
                                from,
                                occupied,
                            ).unwrap()].position,
                            task: if self.collectable {
                                TaskChange::Assign {
                                    task: NpcTaskResourceCollection {
                                        stage: ResourceCollectionStage::MovingToResource,
                                        resource_entity: Some(self.entity),
                                    },
                                }
                            } else {
                                TaskChange::Keep
                            },
                        },
                    ),
                    None => None,
                },
                None => Some(
                    ClickOrder {
                        request: PathRequest {
                            from: from.on_ground(),
                            to: self.position.on_ground(),
                            target_rotation: None,
                            target_entity: None,
                        },
                        shown_at: self.position,
                        task: TaskChange::Cancel,
                    },
                ),
            }
        }
    }
}

impl<R: Copy> Click<R> {
    /// Whether the click is on a container without a single interaction
    /// slot.
    pub fn is_malformed(&self) -> (broken: bool)
        ensures
            broken == self.malformed(),
    {
        match &self.interact_slots {
            Some(slots) => {
                let mut k: usize = 0;
                while k < slots.len()
                    invariant
                        k <= slots.len(),
                        self.interact_slots == Some(*slots),
                        forall|i: int| 0 <= i < k ==> slots@[i].locator != Locator::Interact,
                    decreases slots.len() - k,
                {
                    if slots[k].locator == Locator::Interact {
                        assert(0 <= k < slots@.len() && slots@[k as int].locator
                            == Locator::Interact);
                        return false;
                    }
                    k += 1;
                }
                true
            },
            None => false,
        }
    }
}

/// What a click asks of one selected unit that stands at
/// `movable_position`.
///
/// A click on one of the selected units asks nothing. A click on a
/// container sends the unit to the container's interaction slot that
/// [`crate::locator::pick_nearest_locator`] chooses; if the container is a
/// deposit the unit starts to collect from it. A click elsewhere sends the
/// unit to the point clicked and ends its task.
pub fn give_path_on_click<R: Copy>(
    click: &Click<R>,
    movable_position: &Position,
    occupancy: &Occupancy,
) -> (order: Option<ClickOrder<R>>)
    requires
        !click.malformed(),
    ensures
        order == click.order_for(*movable_position, occupancy@.occupied),
        order is None <==> click.selected_unit,
{
    if click.selected_unit {
        return None;
    }
    match &click.interact_slots {
        Some(slots) => {
            match pick_nearest_locator(Locator::Interact, slots, movable_position, occupancy) {
                Some((position, rotation, entity)) => {
                    let task: TaskChange = if click.collectable {
                        TaskChange::Assign { task: NpcTaskResourceCollection::new(Some(click.entity)) }
                    } else {
                        TaskChange::Keep
                    };
                    let request = PathRequest {
                        from: movable_position.grounded(),
                        to: position.grounded(),
                        target_rotation: Some(rotation),
                        target_entity: Some(entity),
                    };
                    Some(ClickOrder { request, shown_at: position, task })
                },
                None => None,
            }
        },
        None => Some(
            ClickOrder {
                request: request_path_to_point(movable_position, &click.position),
                shown_at: click.position,
                task: TaskChange::Cancel,
            },
        ),
    }
}

impl<R: Copy> ClickOrder<R> {
    /// Takes in the answer of the walkable mesh. A move whose target is
    /// outside the mesh, or to which the mesh knows no route, is turned down:
    /// nothing about the unit changes. Else the unit gets the path along the
    /// route, the change of task takes effect, and the target is shown.
    pub fn accept(&self, answer: &NavmeshAnswer) -> (accepted: Option<ClickMove<R>>)
        ensures
            accepted is Some <==> answer.usable_route() is Some,
            accepted matches Some(m) ==> {
                &&& m.path@ == PathView::planned(
                    answer.usable_route().unwrap(),
                    self.request.target_rotation,
                    self.request.target_entity,
                )
                &&& m.shown_at == self.shown_at
                &&& m.task == self.task
            },
    {
        match plan_path(&self.request, answer) {
            Some(path) => Some(ClickMove { path, shown_at: self.shown_at, task: self.task }),
            None => None,
        }
    }
}

} // verus!
