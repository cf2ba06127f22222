use svincraft::geometry::Position;
use svincraft::locator::{Locator, LocatorSlot};
use svincraft::occupancy::{Occupancy, Occupies};
use svincraft::path::{
    make_path_to_nearest_locator, movable_update, plan_path, request_path_to_point, MovePath,
    NavmeshAnswer, NpcTaskMove, PathRequest, ARRIVAL_EPSILON, SVIN_SPEED,
};

fn p(x: i32, z: i32) -> Position {
    Position::new(x, 0, z)
}

fn still() -> NpcTaskMove {
    NpcTaskMove { speed: 0 }
}

#[test]
fn new_path_is_neither_altered_nor_obstructed() {
    let path: MovePath<u8> = MovePath::new(p(1, 2), vec![p(5, 6), p(3, 4)], Some(9), Some(77));
    assert_eq!(path.current, p(1, 2));
    assert_eq!(path.next, vec![p(5, 6), p(3, 4)]);
    assert_eq!(path.target_rotation, Some(9));
    assert_eq!(path.target_entity, Some(77));
    assert!(!path.altered);
    assert!(!path.obstructed);
    assert!(path.faces_heading());
}

#[test]
fn route_becomes_current_and_reversed_stack() {
    let route = vec![p(1, 0), p(2, 0), p(3, 0), p(4, 0)];
    let path: MovePath<u8> = MovePath::from_route(&route, None, None).unwrap();
    assert_eq!(path.current, p(1, 0));
    assert_eq!(path.next, vec![p(4, 0), p(3, 0), p(2, 0)]);
    assert_eq!(path.remaining_waypoints(), route);
    assert_eq!(path.shown_waypoint(), p(2, 0));
    assert!(!path.is_on_last_leg());
}

#[test]
fn empty_route_gives_no_path() {
    assert!(MovePath::<u8>::from_route(&Vec::new(), None, None).is_none());
}

#[test]
fn single_waypoint_route_is_its_own_last_leg() {
    let path: MovePath<u8> = MovePath::from_route(&vec![p(7, 7)], Some(1), None).unwrap();
    assert!(path.is_on_last_leg());
    assert_eq!(path.shown_waypoint(), p(7, 7));
    assert_eq!(path.remaining_waypoints(), vec![p(7, 7)]);
}

#[test]
fn arrival_epsilon_is_one_hundredth_of_a_metre() {
    assert_eq!(ARRIVAL_EPSILON, 10);
}

#[test]
fn a_route_of_n_waypoints_takes_n_crossings_in_order() {
    let route = vec![p(1000, 0), p(2000, 500), p(2000, 3000)];
    let mut path: MovePath<u8> = MovePath::from_route(&route, None, None).unwrap();
    let mut occupancy = Occupancy::new();
    let mut visited = Vec::new();
    let mut crossings = 0;
    let mut arrived = false;
    while !arrived {
        visited.push(path.current);
        let mut position = path.current;
        let outcome = movable_update(1, &still(), &mut path, &mut position, 0, false, &mut occupancy);
        crossings += 1;
        arrived = outcome.arrival.is_some();
        assert!(crossings <= 3);
    }
    assert_eq!(crossings, 3);
    assert_eq!(visited, route);
}

#[test]
fn a_unit_far_from_its_waypoint_keeps_its_path() {
    let mut path: MovePath<u8> = MovePath::from_route(&vec![p(1000, 0), p(2000, 0)], None, None).unwrap();
    let mut occupancy = Occupancy::new();
    let mut position = Position::new(990, 0, 0);
    let outcome = movable_update(1, &still(), &mut path, &mut position, 0, false, &mut occupancy);
    assert!(outcome.arrival.is_none());
    assert_eq!(path.current, p(1000, 0));
    assert_eq!(path.next, vec![p(2000, 0)]);
    assert_eq!(position, Position::new(990, 0, 0));
    let mut position = Position::new(991, 300, 0);
    let outcome = movable_update(1, &still(), &mut path, &mut position, 0, false, &mut occupancy);
    assert!(outcome.arrival.is_none());
    assert_eq!(path.current, p(2000, 0));
    assert!(path.next.is_empty());
}

#[test]
fn a_step_is_speed_times_time() {
    let mut path: MovePath<u8> = MovePath::from_route(&vec![p(1000, 0)], None, None).unwrap();
    let mut occupancy = Occupancy::new();
    let mut position = Position::new(0, 40, 0);
    let walk = NpcTaskMove { speed: 2000 };
    let outcome = movable_update(1, &walk, &mut path, &mut position, 16_667, false, &mut occupancy);
    assert_eq!(position, Position::new(33, 40, 0));
    assert_eq!(outcome.facing, Some(p(1000, 0)));
    assert!(outcome.arrival.is_none());
    let outcome = movable_update(1, &walk, &mut path, &mut position, 1_000_000, false, &mut occupancy);
    assert_eq!(position, Position::new(2033, 40, 0));
    assert!(outcome.arrival.is_none());
}

#[test]
fn arrival_snaps_to_the_waypoint_and_hands_over_the_facing() {
    let mut path: MovePath<u8> = MovePath::new(p(1000, 0), Vec::new(), Some(5), Some(77));
    let mut occupancy = Occupancy::new();
    let mut position = Position::new(995, 7, 3);
    let outcome = movable_update(1, &still(), &mut path, &mut position, 0, true, &mut occupancy);
    let arrival = outcome.arrival.unwrap();
    assert_eq!(position, Position::new(1000, 7, 0));
    assert_eq!(arrival.rotation, Some(5));
    assert_eq!(arrival.claimed, Some(Occupies(77)));
    assert_eq!(occupancy.occupies(1), Some(Occupies(77)));
    assert!(occupancy.is_occupied(77));
}

#[test]
fn arrival_at_something_that_is_no_slot_claims_nothing() {
    let mut path: MovePath<u8> = MovePath::new(p(1000, 0), Vec::new(), None, Some(77));
    let mut occupancy = Occupancy::new();
    let mut position = p(1000, 0);
    let outcome = movable_update(1, &still(), &mut path, &mut position, 0, false, &mut occupancy);
    let arrival = outcome.arrival.unwrap();
    assert_eq!(arrival.rotation, None);
    assert_eq!(arrival.claimed, None);
    assert_eq!(occupancy.occupies(1), None);
    assert!(!occupancy.is_occupied(77));
}

#[test]
fn a_moving_unit_lets_go_of_its_slot() {
    let mut path: MovePath<u8> = MovePath::new(p(9000, 0), Vec::new(), None, None);
    let mut occupancy = Occupancy::new();
    occupancy.claim(1, 10);
    let mut position = p(0, 0);
    let outcome = movable_update(1, &NpcTaskMove { speed: 2000 }, &mut path, &mut position, 10_000, false, &mut occupancy);
    assert!(outcome.arrival.is_none());
    assert_eq!(occupancy.occupies(1), None);
    assert!(!occupancy.is_occupied(10));
    assert_eq!(position, p(20, 0));
}

#[test]
fn an_altered_path_keeps_the_facing() {
    let mut path: MovePath<u8> = MovePath::new(p(9000, 0), Vec::new(), None, None);
    path.alter(p(8000, 100));
    assert!(path.altered);
    assert!(!path.faces_heading());
    assert_eq!(path.current, p(8000, 100));
    let mut occupancy = Occupancy::new();
    let mut position = p(0, 0);
    let outcome = movable_update(1, &still(), &mut path, &mut position, 0, false, &mut occupancy);
    assert_eq!(outcome.facing, None);
    path.obstruct();
    assert!(path.obstructed);
}

#[test]
fn request_to_a_point_is_on_the_ground() {
    let request: PathRequest<u8> =
        request_path_to_point(&Position::new(1, 2, 3), &Position::new(4, 5, 6));
    assert_eq!(request.from, p(1, 3));
    assert_eq!(request.to, p(4, 6));
    assert_eq!(request.target_rotation, None);
    assert_eq!(request.target_entity, None);
}

#[test]
fn request_to_a_container_names_the_nearest_slot() {
    let slots = vec![
        LocatorSlot {
            entity: 10,
            locator: Locator::Interact,
            position: Position::new(500, 20, 0),
            rotation: 3u8,
        },
        LocatorSlot {
            entity: 11,
            locator: Locator::Spawn,
            position: Position::new(5, 0, 0),
            rotation: 4u8,
        },
    ];
    let occupancy = Occupancy::new();
    let request =
        make_path_to_nearest_locator(Locator::Interact, &slots, &Position::new(0, 9, 0), &occupancy)
            .unwrap();
    assert_eq!(request.from, p(0, 0));
    assert_eq!(request.to, p(500, 0));
    assert_eq!(request.target_rotation, Some(3));
    assert_eq!(request.target_entity, Some(10));
    let spawn_only = vec![slots[1]];
    assert!(make_path_to_nearest_locator(
        Locator::Interact,
        &spawn_only,
        &Position::new(0, 9, 0),
        &occupancy
    )
    .is_none());
}

#[test]
fn plan_path_needs_a_target_in_the_mesh_and_a_route() {
    let request = PathRequest { from: p(0, 0), to: p(9, 9), target_rotation: Some(1u8), target_entity: Some(5) };
    let route = vec![p(3, 3), p(9, 9)];
    let outside = NavmeshAnswer { target_in_mesh: false, route: Some(route.clone()) };
    assert!(plan_path(&request, &outside).is_none());
    let unreachable = NavmeshAnswer { target_in_mesh: true, route: None };
    assert!(plan_path(&request, &unreachable).is_none());
    let empty = NavmeshAnswer { target_in_mesh: true, route: Some(Vec::new()) };
    assert!(plan_path(&request, &empty).is_none());
    let good = NavmeshAnswer { target_in_mesh: true, route: Some(route) };
    let path = plan_path(&request, &good).unwrap();
    assert_eq!(path.current, p(3, 3));
    assert_eq!(path.next, vec![p(9, 9)]);
    assert_eq!(path.target_rotation, Some(1));
    assert_eq!(path.target_entity, Some(5));
    assert!(!path.altered && !path.obstructed);
}

fn ticks_to_arrive(route: &Vec<Position>, start: Position, speed: u32, elapsed_micros: u32, limit: usize) -> Option<usize> {
    let mut path: MovePath<u8> = MovePath::from_route(route, None, None).unwrap();
    let mut occupancy = Occupancy::new();
    let mut position = start;
    let walk = NpcTaskMove { speed };
    let mut ticks = 0;
    while ticks < limit {
        ticks += 1;
        let outcome = movable_update(1, &walk, &mut path, &mut position, elapsed_micros, false, &mut occupancy);
        if outcome.arrival.is_some() {
            assert_eq!(position, *route.last().unwrap());
            return Some(ticks);
        }
    }
    None
}

#[test]
fn short_steps_walk_a_route_in_ticks_bounded_by_its_length() {
    let route = vec![p(300, 400), p(300, 1000), p(-500, 1000), p(-493, 1003)];
    let legs = 500 + 600 + 800 + 7;
    for (speed, elapsed_micros) in [(2000, 5000), (2000, 1500), (1000, 7999), (3, 1_000_000)] {
        let ticks = ticks_to_arrive(&route, p(0, 0), speed, elapsed_micros, 10_000).unwrap();
        assert!(ticks <= legs + 25 * route.len());
        assert!(ticks >= route.len());
    }
    assert_eq!(ticks_to_arrive(&route, p(0, 0), 2000, 5000, 10_000), Some(191));
}

#[test]
fn a_long_step_can_miss_the_waypoint_for_ever() {
    let route = vec![p(20, 0)];
    assert_eq!(ticks_to_arrive(&route, p(0, 0), 2000, 16_500, 1000), None);
    assert_eq!(ticks_to_arrive(&route, p(0, 0), 2000, 10_000, 1000), Some(1));
}

#[test]
fn varying_short_steps_walk_the_route_as_well() {
    let route = vec![p(300, 400), p(300, 1000), p(-500, 1000)];
    let mut path: MovePath<u8> = MovePath::from_route(&route, None, None).unwrap();
    let mut occupancy = Occupancy::new();
    let mut position = p(0, 0);
    let walk = NpcTaskMove { speed: 2000 };
    let frames = [1500, 5000, 2600, 4999, 3500];
    let mut ticks = 0;
    loop {
        let elapsed_micros = frames[ticks % frames.len()];
        ticks += 1;
        let outcome = movable_update(1, &walk, &mut path, &mut position, elapsed_micros, false, &mut occupancy);
        if outcome.arrival.is_some() {
            break;
        }
        assert!(ticks < 500 + 600 + 800 + 75);
    }
    assert_eq!(position, p(-500, 1000));
}

#[test]
fn waypoints_are_put_on_the_ground() {
    let route = vec![Position::new(1, 50, 2), Position::new(3, -7, 4), Position::new(5, 900, 6)];
    let path: MovePath<u8> = MovePath::from_route(&route, None, None).unwrap();
    assert_eq!(path.current, p(1, 2));
    assert_eq!(path.next, vec![p(5, 6), p(3, 4)]);
    assert_eq!(path.remaining_waypoints(), vec![p(1, 2), p(3, 4), p(5, 6)]);
    let request = PathRequest { from: p(0, 0), to: p(5, 6), target_rotation: Some(1u8), target_entity: None };
    let answer = NavmeshAnswer { target_in_mesh: true, route: Some(route) };
    let planned = plan_path(&request, &answer).unwrap();
    assert_eq!(planned.remaining_waypoints(), vec![p(1, 2), p(3, 4), p(5, 6)]);
}

#[test]
fn units_walk_two_metres_a_second() {
    assert_eq!(SVIN_SPEED, 2000);
    assert_eq!(NpcTaskMove::walking(), NpcTaskMove { speed: 2000 });
}
