use svincraft::geometry::Position;
use svincraft::handheld::Handheld;
use svincraft::resource_collection::{
    ActiveCollecting, CollectableResource, ResourceCollectionStage, ResourceCollector,
};
use svincraft::task::{
    nearest_interactable, update_task_resource_collection, Interactable, NpcTaskResourceCollection,
    PathUse, TaskOrder, TaskSignals,
};

fn p(x: i32, z: i32) -> Position {
    Position::new(x, 0, z)
}

fn collecting(shards: usize) -> ActiveCollecting {
    let mut active = ActiveCollecting::new();
    for k in 0..shards {
        active.add_new(CollectableResource::Tealite, 100 + k as u64);
    }
    active
}

const MOVING: TaskSignals = TaskSignals { move_finished: false, move_obstructed: Some(false) };
const BLOCKED: TaskSignals = TaskSignals { move_finished: false, move_obstructed: Some(true) };
const ARRIVED: TaskSignals = TaskSignals { move_finished: true, move_obstructed: None };
const STANDING: TaskSignals = TaskSignals { move_finished: false, move_obstructed: None };

fn containers() -> Vec<Interactable> {
    vec![
        Interactable { entity: 50, position: p(9000, 0) },
        Interactable { entity: 51, position: p(100, 0) },
        Interactable { entity: 52, position: p(0, 100) },
    ]
}

#[test]
fn default_task_walks_to_the_resource() {
    let task = NpcTaskResourceCollection::default();
    assert_eq!(task.stage, ResourceCollectionStage::MovingToResource);
    assert_eq!(task.resource_entity, None);
    assert_eq!(ResourceCollectionStage::default(), ResourceCollectionStage::MovingToResource);
    assert_eq!(NpcTaskResourceCollection::new(Some(4)).resource_entity, Some(4));
}

#[test]
fn nearest_container_is_found_by_distance() {
    assert_eq!(nearest_interactable(&p(0, 0), &containers()), Some(51));
    assert_eq!(nearest_interactable(&p(8000, 0), &containers()), Some(50));
    assert_eq!(nearest_interactable(&p(0, 0), &Vec::new()), None);
}

#[test]
fn a_full_cycle_returns_to_the_start() {
    let mut task = NpcTaskResourceCollection::new(Some(7));
    let mut collector = ResourceCollector { base_building_entity: None, limit: 3 };
    let mut handheld = Handheld::new(Some(1));
    let here = p(0, 0);
    let list = containers();

    let order = update_task_resource_collection(&mut task, &mut collector, &mut handheld, &MOVING, None, &here, &list);
    assert_eq!(order, TaskOrder::Idle);
    assert_eq!(task.stage, ResourceCollectionStage::MovingToResource);

    let order = update_task_resource_collection(&mut task, &mut collector, &mut handheld, &ARRIVED, None, &here, &list);
    assert_eq!(order, TaskOrder::BeginCollecting);
    assert!(order.consumes_arrival());
    assert_eq!(order.path_destination(), None);
    assert_eq!(task.stage, ResourceCollectionStage::CollectingResource);
    assert!(handheld.activated());
    assert!(handheld.just_activated());

    let two = collecting(2);
    let order = update_task_resource_collection(&mut task, &mut collector, &mut handheld, &STANDING, Some(&two), &here, &list);
    assert_eq!(order, TaskOrder::Idle);
    assert_eq!(task.stage, ResourceCollectionStage::CollectingResource);
    let order = update_task_resource_collection(&mut task, &mut collector, &mut handheld, &STANDING, None, &here, &list);
    assert_eq!(order, TaskOrder::Idle);

    let three = collecting(3);
    let order = update_task_resource_collection(&mut task, &mut collector, &mut handheld, &STANDING, Some(&three), &here, &list);
    assert_eq!(order, TaskOrder::FinishCollecting);
    assert_eq!(task.stage, ResourceCollectionStage::MovingToBase);
    assert!(!handheld.activated());
    assert!(handheld.just_deactivated());

    let order = update_task_resource_collection(&mut task, &mut collector, &mut handheld, &STANDING, Some(&three), &here, &list);
    assert_eq!(order, TaskOrder::GoToBase { base: 51 });
    assert_eq!(order.path_destination(), Some(51));
    assert!(!order.consumes_arrival());
    assert_eq!(collector.base_building_entity, Some(51));
    assert_eq!(task.conclude(&order, true), PathUse::StartMove);
    assert_eq!(task.stage, ResourceCollectionStage::MovingToBase);

    let order = update_task_resource_collection(&mut task, &mut collector, &mut handheld, &MOVING, Some(&three), &here, &list);
    assert_eq!(order, TaskOrder::Idle);
    let order = update_task_resource_collection(&mut task, &mut collector, &mut handheld, &BLOCKED, Some(&three), &here, &list);
    assert_eq!(order, TaskOrder::Idle);

    let order = update_task_resource_collection(&mut task, &mut collector, &mut handheld, &ARRIVED, Some(&three), &here, &list);
    assert_eq!(order, TaskOrder::ReturnToResource { container: 7 });
    assert!(order.consumes_arrival());
    assert_eq!(task.stage, ResourceCollectionStage::MovingToBase);
    assert_eq!(task.conclude(&order, true), PathUse::StartMove);
    assert_eq!(task, NpcTaskResourceCollection::new(Some(7)));
}

#[test]
fn a_blocked_approach_asks_for_a_new_path() {
    let mut task = NpcTaskResourceCollection::new(Some(7));
    let mut collector = ResourceCollector { base_building_entity: Some(50), limit: 3 };
    let mut handheld = Handheld::new(Some(1));
    let order = update_task_resource_collection(&mut task, &mut collector, &mut handheld, &BLOCKED, None, &p(0, 0), &Vec::new());
    assert_eq!(order, TaskOrder::Replan { container: 7 });
    assert_eq!(order.path_destination(), Some(7));
    assert_eq!(task.conclude(&order, true), PathUse::ReplacePath);
    assert_eq!(task.stage, ResourceCollectionStage::MovingToResource);
    assert_eq!(task.conclude(&order, false), PathUse::Nothing);
    assert!(!handheld.activated());
}

#[test]
fn without_a_path_the_return_is_asked_again() {
    let mut task = NpcTaskResourceCollection {
        stage: ResourceCollectionStage::MovingToBase,
        resource_entity: Some(7),
    };
    let mut collector = ResourceCollector { base_building_entity: Some(50), limit: 3 };
    let mut handheld = Handheld::new(Some(1));
    for _ in 0..2 {
        let order = update_task_resource_collection(&mut task, &mut collector, &mut handheld, &ARRIVED, None, &p(0, 0), &Vec::new());
        assert_eq!(order, TaskOrder::ReturnToResource { container: 7 });
        assert_eq!(task.conclude(&order, false), PathUse::Nothing);
        assert_eq!(task.stage, ResourceCollectionStage::MovingToBase);
    }
}

#[test]
fn a_unit_without_a_load_goes_back_to_the_resource() {
    let mut task = NpcTaskResourceCollection {
        stage: ResourceCollectionStage::MovingToBase,
        resource_entity: Some(7),
    };
    let mut collector = ResourceCollector { base_building_entity: None, limit: 3 };
    let mut handheld = Handheld::new(Some(1));
    let order = update_task_resource_collection(&mut task, &mut collector, &mut handheld, &STANDING, None, &p(0, 0), &containers());
    assert_eq!(order, TaskOrder::ReturnToResource { container: 7 });
    assert_eq!(collector.base_building_entity, None);
}

#[test]
fn the_remembered_base_is_used() {
    let mut task = NpcTaskResourceCollection {
        stage: ResourceCollectionStage::MovingToBase,
        resource_entity: Some(7),
    };
    let mut collector = ResourceCollector { base_building_entity: Some(50), limit: 3 };
    let mut handheld = Handheld::new(Some(1));
    let load = collecting(3);
    let order = update_task_resource_collection(&mut task, &mut collector, &mut handheld, &STANDING, Some(&load), &p(0, 0), &containers());
    assert_eq!(order, TaskOrder::GoToBase { base: 50 });
    assert_eq!(collector.base_building_entity, Some(50));
    assert_eq!(task.conclude(&order, false), PathUse::Nothing);
}

#[test]
fn orders_without_a_path_use_none() {
    let mut task = NpcTaskResourceCollection::new(Some(7));
    assert_eq!(task.conclude(&TaskOrder::Idle, true), PathUse::Nothing);
    assert_eq!(task.conclude(&TaskOrder::BeginCollecting, true), PathUse::Nothing);
    assert_eq!(task.conclude(&TaskOrder::FinishCollecting, true), PathUse::Nothing);
    assert_eq!(task, NpcTaskResourceCollection::new(Some(7)));
}
