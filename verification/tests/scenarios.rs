use glam::Vec2;
use polyanya::{Mesh, Triangulation};
use svincraft::avoidance::{apply_avoidance, movable_collision_avoidance, Avoidance, AvoidanceProbe, Blocker};
use svincraft::geometry::Position;
use svincraft::locator::{Locator, LocatorSlot};
use svincraft::navmesh::{update_navmesh_obstacles, Footprint, GroundPoint, ObstacleAabb};
use svincraft::occupancy::{Occupancy, Occupies};
use svincraft::path::{make_path_to_nearest_locator, movable_update, plan_path, MovePath, NavmeshAnswer, NpcTaskMove};
use svincraft::handheld::Handheld;
use svincraft::resource_collection::{ActiveCollecting, CollectableResource, ResourceCollectionStage, ResourceCollector};
use svincraft::spawner::{spawn_task_resource_collection, SpawnBatch, SpawnProbe};
use svincraft::task::{update_task_resource_collection, NpcTaskResourceCollection, PathUse, TaskOrder, TaskSignals};

fn metres(point: &GroundPoint) -> Vec2 {
    Vec2::new(point.x as f32 / 1000.0, point.z as f32 / 1000.0)
}

fn ring(footprint: &Footprint) -> Vec<Vec2> {
    footprint.corners().iter().map(metres).collect()
}

fn build(obstacles: &Vec<ObstacleAabb>) -> Mesh {
    let input = update_navmesh_obstacles(1, 0, obstacles).unwrap();
    let mut triangulation = Triangulation::from_outer_edges(&ring(&input.boundary));
    triangulation.add_obstacles(input.obstacles.iter().map(ring));
    triangulation.merge_overlapping_obstacles();
    let mut mesh = triangulation.as_navmesh().unwrap();
    mesh.bake();
    mesh
}

fn centre_block() -> Vec<ObstacleAabb> {
    vec![ObstacleAabb { min: Position::new(-5000, 0, -5000), max: Position::new(5000, 2000, 5000) }]
}

#[test]
fn obstacle_is_carved_out_of_the_mesh() {
    let mesh = build(&centre_block());
    assert!(!mesh.point_in_mesh(Vec2::new(0.0, 0.0)));
    assert!(mesh.point_in_mesh(Vec2::new(100.0, 0.0)));
    let from = Vec2::new(-50.0, 0.3);
    let to = Vec2::new(50.0, 0.3);
    let path = mesh.path(from, to).unwrap();
    assert!(path.length > from.distance(to));
    assert!(path.path.len() > 1);
}

#[test]
fn mesh_contains_what_is_free_and_nothing_of_the_obstacle() {
    let mesh = build(&centre_block());
    let mut k = 0;
    while k < 40 {
        let mut j = 0;
        while j < 40 {
            let x = -487.3 + 24.7 * k as f32;
            let z = -491.1 + 24.9 * j as f32;
            let in_obstacle = x.abs() < 5.0 && z.abs() < 5.0;
            let in_margin = x.abs() <= 5.4 && z.abs() <= 5.4;
            if in_obstacle {
                assert!(!mesh.point_in_mesh(Vec2::new(x, z)));
            } else if !in_margin {
                assert!(mesh.point_in_mesh(Vec2::new(x, z)));
            }
            j += 1;
        }
        k += 1;
    }
    assert!(!mesh.point_in_mesh(Vec2::new(4.9, -4.9)));
    assert!(!mesh.point_in_mesh(Vec2::new(5.2, 0.1)));
    assert!(mesh.point_in_mesh(Vec2::new(5.6, 0.1)));
    assert!(!mesh.point_in_mesh(Vec2::new(500.5, 0.1)));
}

#[test]
fn rebuilding_with_the_same_obstacles_gives_the_same_answers() {
    let obstacles = vec![
        ObstacleAabb { min: Position::new(-5000, 0, -5000), max: Position::new(5000, 2000, 5000) },
        ObstacleAabb { min: Position::new(40_000, 0, 10_000), max: Position::new(60_000, 2000, 30_000) },
        ObstacleAabb { min: Position::new(55_000, 0, 25_000), max: Position::new(70_000, 2000, 35_000) },
    ];
    let first = build(&obstacles);
    let second = build(&obstacles);
    let mut k = 0;
    while k < 50 {
        let mut j = 0;
        while j < 50 {
            let point = Vec2::new(-93.7 + 4.1 * k as f32, -88.3 + 3.9 * j as f32);
            assert_eq!(first.point_in_mesh(point), second.point_in_mesh(point));
            j += 1;
        }
        k += 1;
    }
    assert!(!first.point_in_mesh(Vec2::new(57.0, 27.0)));
    assert!(!first.point_in_mesh(Vec2::new(45.0, 12.0)));
    assert!(first.point_in_mesh(Vec2::new(45.0, 33.0)));
}

fn single_slot() -> Vec<LocatorSlot<u8>> {
    vec![LocatorSlot { entity: 10, locator: Locator::Interact, position: Position::new(5000, 0, 0), rotation: 0 }]
}

fn path_to(slots: &Vec<LocatorSlot<u8>>, from: &Position, occupancy: &Occupancy) -> MovePath<u8> {
    let request = make_path_to_nearest_locator(Locator::Interact, slots, from, occupancy).unwrap();
    let answer = NavmeshAnswer { target_in_mesh: true, route: Some(vec![request.to]) };
    plan_path(&request, &answer).unwrap()
}

#[test]
fn contested_single_locator_is_held_by_one() {
    let slots = single_slot();
    let mut occupancy = Occupancy::new();
    let walk = NpcTaskMove { speed: 2000 };
    let mut first_at = Position::new(4000, 0, 0);
    let mut second_at = Position::new(2000, 0, 0);
    let mut first_path = path_to(&slots, &first_at, &occupancy);
    let mut second_path = path_to(&slots, &second_at, &occupancy);
    assert_eq!(first_path.target_entity, Some(10));
    assert_eq!(second_path.target_entity, Some(10));

    let outcome = movable_update(1, &walk, &mut first_path, &mut first_at, 500_000, true, &mut occupancy);
    assert_eq!(outcome.arrival.unwrap().claimed, Some(Occupies(10)));
    assert_eq!(first_at, Position::new(5000, 0, 0));

    let outcome = movable_update(2, &walk, &mut second_path, &mut second_at, 1_100_000, true, &mut occupancy);
    assert!(outcome.arrival.is_none());
    assert_eq!(second_at, Position::new(4200, 0, 0));

    let probe = AvoidanceProbe::new(
        2,
        second_at,
        1000,
        &second_path,
        vec![Blocker { entity: 1, position: first_at, heading_to: None }],
    );
    let decisions = movable_collision_avoidance(&vec![probe]);
    assert_eq!(decisions, vec![Avoidance::Obstruct]);
    apply_avoidance(&mut second_path, &decisions[0], false);
    assert!(second_path.obstructed);

    let mut task = NpcTaskResourceCollection::new(Some(7));
    let mut collector = ResourceCollector { base_building_entity: Some(8), limit: 3 };
    let mut handheld = Handheld::new(Some(2));
    let signals = TaskSignals { move_finished: false, move_obstructed: Some(second_path.obstructed) };
    let order = update_task_resource_collection(&mut task, &mut collector, &mut handheld, &signals, None, &second_at, &Vec::new());
    assert_eq!(order, TaskOrder::Replan { container: 7 });
    let replanned = path_to(&slots, &second_at, &occupancy);
    assert_eq!(task.conclude(&order, true), PathUse::ReplacePath);
    assert_eq!(replanned.target_entity, Some(10));
    assert!(!replanned.obstructed);

    assert_eq!(occupancy.occupies(1), Some(Occupies(10)));
    assert_eq!(occupancy.occupies(2), None);
    assert!(occupancy.is_occupied(10));
}

#[test]
fn contested_locator_with_a_second_slot_sends_the_other_there() {
    let mut slots = single_slot();
    slots.push(LocatorSlot { entity: 11, locator: Locator::Interact, position: Position::new(5000, 0, 3000), rotation: 1 });
    let mut occupancy = Occupancy::new();
    let mut first_at = Position::new(5000, 0, 5);
    let second_at = Position::new(4200, 0, 0);
    let mut first_path = path_to(&slots, &first_at, &occupancy);
    let second_path = path_to(&slots, &second_at, &occupancy);
    assert_eq!(second_path.target_entity, Some(10));
    let outcome = movable_update(1, &NpcTaskMove { speed: 0 }, &mut first_path, &mut first_at, 0, true, &mut occupancy);
    assert!(outcome.arrival.is_some());
    let replanned = path_to(&slots, &second_at, &occupancy);
    assert_eq!(replanned.target_entity, Some(11));
    assert_eq!(replanned.current, Position::new(5000, 0, 3000));
    assert_eq!(occupancy.occupies(1), Some(Occupies(10)));
    assert_eq!(occupancy.occupies(2), None);
}

#[test]
fn spawn_batch_of_four_with_two_slots_keeps_two() {
    let slot = |locator_entity: u64, locator: Locator| SpawnProbe {
        locator_entity,
        locator,
        footprint_blocked: false,
        on_navmesh: true,
        routable: true,
    };
    let mut occupancy = Occupancy::new();
    occupancy.claim(1, 22);
    let batches = vec![SpawnBatch {
        remaining: 4,
        resource_entity: 7,
        slots: vec![
            slot(20, Locator::Spawn),
            slot(30, Locator::Interact),
            slot(21, Locator::Spawn),
            slot(22, Locator::Spawn),
        ],
    }];
    let pass = spawn_task_resource_collection(&batches, &occupancy);
    assert_eq!(pass.orders.len(), 2);
    assert_eq!(pass.orders[0].locator_entity, 20);
    assert_eq!(pass.orders[1].locator_entity, 21);
    assert_eq!((pass.orders[0].batch, pass.orders[0].slot), (0, 0));
    assert_eq!((pass.orders[1].batch, pass.orders[1].slot), (0, 2));
    assert!(pass.orders.iter().all(|order| order.tasked && order.resource_entity == 7));
    assert_eq!(pass.leftovers, vec![(2, 7)]);
    let queue = pass.into_queue().unwrap();
    assert_eq!(queue.queue, vec![(2, 7)]);
}

#[test]
fn a_cycle_closes_within_the_ticks_of_its_routes_and_its_load() {
    let walk = NpcTaskMove { speed: 2000 };
    let elapsed_micros = 4000;
    let to_deposit = vec![Position::new(300, 0, 400), Position::new(300, 0, 1000)];
    let to_base = vec![Position::new(300, 0, 400), Position::new(0, 0, 0)];
    let full_from = 40;
    let there = 500 + 600 + 25 * 2;
    let base_ticks = 600 + 500 + 25 * 2;
    let bound = there + full_from + base_ticks + 2;

    let mut occupancy = Occupancy::new();
    let mut task = NpcTaskResourceCollection::new(Some(7));
    let mut collector = ResourceCollector { base_building_entity: Some(8), limit: 3 };
    let mut handheld = Handheld::new(Some(1));
    let mut position = Position::new(0, 0, 0);
    let mut path: Option<MovePath<u8>> = MovePath::from_route(&to_deposit, None, None);
    let mut finished = false;
    let mut load = ActiveCollecting::new();
    let mut loaded_at = None;
    let mut back_at = None;

    let mut tick = 0;
    while tick < bound && back_at.is_none() {
        tick += 1;
        if let Some(followed) = path.as_mut() {
            let outcome = movable_update(1, &walk, followed, &mut position, elapsed_micros, false, &mut occupancy);
            if outcome.arrival.is_some() {
                path = None;
                finished = true;
            }
        }
        if tick > full_from && load.total_shards_num() < 3 {
            load.add_new(CollectableResource::Tealite, 100 + tick as u64);
            load.add_new(CollectableResource::Tealite, 200 + tick as u64);
            load.add_new(CollectableResource::Purplite, 300 + tick as u64);
        }
        let signals = TaskSignals {
            move_finished: finished,
            move_obstructed: path.as_ref().map(|followed| followed.obstructed),
        };
        let order = update_task_resource_collection(&mut task, &mut collector, &mut handheld, &signals, Some(&load), &position, &Vec::new());
        if order.consumes_arrival() {
            finished = false;
        }
        if order.path_destination().is_some() {
            let route = if order == (TaskOrder::GoToBase { base: 8 }) { &to_base } else { &to_deposit };
            let planned = MovePath::from_route(route, None, None);
            if task.conclude(&order, planned.is_some()) != PathUse::Nothing {
                path = planned;
            }
        }
        if loaded_at.is_none() && task.stage == ResourceCollectionStage::MovingToBase {
            loaded_at = Some(tick);
        }
        if loaded_at.is_some() && task.stage == ResourceCollectionStage::MovingToResource {
            back_at = Some(tick);
        }
    }
    assert_eq!(loaded_at, Some(142));
    assert_eq!(back_at, Some(284));
    assert!(back_at.unwrap() <= bound);
    assert_eq!(task.resource_entity, Some(7));
    assert_eq!(position, Position::new(0, 0, 0));
}
