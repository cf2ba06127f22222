use svincraft::avoidance::{
    apply_avoidance, disjoint_target, movable_collision_avoidance, Avoidance, AvoidanceProbe,
    Blocker,
};
use svincraft::geometry::Position;
use svincraft::path::MovePath;

fn p(x: i32, z: i32) -> Position {
    Position::new(x, 0, z)
}

fn probe(position: Position, current: Position, fixed_target: bool, blockers: Vec<Blocker>) -> AvoidanceProbe {
    AvoidanceProbe {
        entity: 1,
        position,
        diameter: 1000,
        current,
        waypoints_left: 0,
        fixed_target,
        blockers,
    }
}

fn standing(entity: u64, position: Position) -> Blocker {
    Blocker { entity, position, heading_to: None }
}

fn walking(entity: u64, position: Position, heading_to: Position) -> Blocker {
    Blocker { entity, position, heading_to: Some(heading_to) }
}

#[test]
fn probe_sums_up_the_path() {
    let path: MovePath<u8> = MovePath::new(p(5, 5), vec![p(1, 1), p(2, 2)], None, Some(3));
    let made = AvoidanceProbe::new(9, p(0, 0), 800, &path, vec![standing(4, p(1, 0))]);
    assert_eq!(made.entity, 9);
    assert_eq!(made.diameter, 800);
    assert_eq!(made.current, p(5, 5));
    assert_eq!(made.waypoints_left, 2);
    assert!(made.fixed_target);
    assert_eq!(made.blockers, vec![standing(4, p(1, 0))]);
}

#[test]
fn only_the_final_approach_is_looked_at() {
    let mut memory = None;
    let mut far = probe(p(0, 0), p(1001, 0), true, vec![standing(2, p(10, 0))]);
    assert!(!far.is_on_final_approach());
    assert_eq!(far.avoid(&mut memory), Avoidance::Clear);
    far.current = p(1000, 0);
    assert!(far.is_on_final_approach());
    assert_eq!(far.avoid(&mut memory), Avoidance::Obstruct);
    far.waypoints_left = 1;
    assert!(!far.is_on_final_approach());
    assert_eq!(far.avoid(&mut memory), Avoidance::Clear);
}

#[test]
fn the_height_of_the_unit_does_not_count_for_the_approach() {
    let lifted = probe(Position::new(0, 5000, 0), p(1000, 0), true, Vec::new());
    assert!(lifted.is_on_final_approach());
}

#[test]
fn nothing_in_the_way_is_clear() {
    let mut memory = Some(p(500, 0));
    let alone = probe(p(0, 0), p(500, 0), true, Vec::new());
    assert_eq!(alone.find_nearest_blocker(), None);
    assert_eq!(alone.avoid(&mut memory), Avoidance::Clear);
    assert_eq!(memory, Some(p(500, 0)));
}

#[test]
fn the_nearest_blocker_counts() {
    let crowded = probe(
        p(0, 0),
        p(500, 0),
        true,
        vec![standing(2, p(300, 0)), standing(3, p(0, 200)), standing(4, p(-200, 0))],
    );
    assert_eq!(crowded.find_nearest_blocker(), Some(standing(3, p(0, 200))));
}

#[test]
fn a_standing_blocker_obstructs_a_unit_bound_for_a_slot() {
    let mut memory = Some(p(77, 77));
    let blocked = probe(p(4500, 0), p(5000, 0), true, vec![standing(2, p(5000, 0))]);
    assert_eq!(blocked.avoid(&mut memory), Avoidance::Obstruct);
    assert_eq!(memory, Some(p(77, 77)));
    let mut memory = None;
    assert_eq!(blocked.avoid(&mut memory), Avoidance::Obstruct);
    assert_eq!(memory, None);
}

#[test]
fn a_meeting_is_let_pass_once() {
    let mut memory = None;
    let first = probe(p(4500, 0), p(5000, 0), true, vec![walking(2, p(4600, 100), p(5100, 0))]);
    assert_eq!(first.avoid(&mut memory), Avoidance::Tolerated);
    assert_eq!(memory, Some(p(5000, 0)));
    assert_eq!(first.avoid(&mut memory), Avoidance::Obstruct);
    assert_eq!(memory, None);
    assert_eq!(first.avoid(&mut memory), Avoidance::Tolerated);
    let mut elsewhere = Some(p(7000, 0));
    assert_eq!(first.avoid(&mut elsewhere), Avoidance::Tolerated);
    assert_eq!(elsewhere, Some(p(5000, 0)));
}

#[test]
fn a_blocker_bound_elsewhere_obstructs_and_clears_the_memory() {
    let mut memory = Some(p(5000, 0));
    let crossing = probe(p(4500, 0), p(9000, 0), true, vec![walking(2, p(4600, 100), p(0, 9000))]);
    let mut near = crossing;
    near.position = p(8500, 0);
    assert_eq!(near.avoid(&mut memory), Avoidance::Obstruct);
    assert_eq!(memory, None);
}

#[test]
fn a_meeting_near_the_origin_is_let_pass_like_any_other() {
    let mut memory = None;
    let first = probe(p(0, 0), p(100, 0), true, vec![walking(2, p(50, 0), p(120, 0))]);
    assert_eq!(first.avoid(&mut memory), Avoidance::Tolerated);
    assert_eq!(memory, Some(p(100, 0)));
    let mut at_origin = Some(Position::origin());
    assert_eq!(first.avoid(&mut at_origin), Avoidance::Obstruct);
    assert_eq!(at_origin, None);
}

#[test]
fn of_two_units_meeting_near_the_origin_one_is_let_pass() {
    let mut a = probe(p(50, 0), p(100, 0), true, vec![walking(2, p(150, 0), p(200, 0))]);
    a.entity = 1;
    let mut b = probe(p(150, 0), p(200, 0), true, vec![walking(1, p(50, 0), p(100, 0))]);
    b.entity = 2;
    assert_eq!(
        movable_collision_avoidance(&vec![a, b]),
        vec![Avoidance::Tolerated, Avoidance::Obstruct]
    );
}

#[test]
fn sidestep_clears_one_diameter() {
    assert_eq!(disjoint_target(&p(0, 0), &p(-600, 0), 1000), p(400, 0));
    assert_eq!(disjoint_target(&Position::new(0, 50, 0), &p(-300, -400), 1000), p(300, 400));
    assert_eq!(disjoint_target(&Position::new(10, 50, 20), &Position::new(10, 0, 20), 1000), p(10, 20));
    assert_eq!(disjoint_target(&p(0, 0), &p(-1500, 0), 1000), p(-500, 0));
    assert_eq!(disjoint_target(&p(100, 100), &p(110, 110), 1000), p(-604, -604));
}

#[test]
fn a_free_unit_steps_aside() {
    let mut memory = Some(p(3, 3));
    let free = probe(p(0, 0), p(500, 0), false, vec![walking(2, p(-600, 0), p(500, 0))]);
    assert_eq!(free.avoid(&mut memory), Avoidance::Sidestep { target: p(400, 0) });
    assert_eq!(memory, Some(p(3, 3)));
}

#[test]
fn decisions_share_one_memory_over_the_tick() {
    let a = probe(p(4500, 0), p(5000, 0), true, vec![walking(2, p(4600, 100), p(5100, 0))]);
    let mut b = probe(p(4600, 100), p(5100, 0), true, vec![walking(1, p(4500, 0), p(5000, 0))]);
    b.entity = 2;
    let mut c = probe(p(4700, 0), p(5050, 0), true, vec![walking(1, p(4500, 0), p(5000, 0))]);
    c.entity = 3;
    let idle = probe(p(0, 0), p(90_000, 0), true, Vec::new());
    let decisions = movable_collision_avoidance(&vec![a, idle, b, c]);
    assert_eq!(
        decisions,
        vec![Avoidance::Tolerated, Avoidance::Clear, Avoidance::Obstruct, Avoidance::Tolerated]
    );
    assert_eq!(movable_collision_avoidance(&Vec::new()), Vec::new());
}

#[test]
fn decisions_are_carried_out_on_the_path() {
    let mut path: MovePath<u8> = MovePath::new(p(500, 0), Vec::new(), None, None);
    apply_avoidance(&mut path, &Avoidance::Clear, true);
    apply_avoidance(&mut path, &Avoidance::Tolerated, true);
    assert!(!path.obstructed && !path.altered);
    apply_avoidance(&mut path, &Avoidance::Sidestep { target: p(400, 0) }, false);
    assert_eq!(path.current, p(500, 0));
    assert!(!path.altered);
    apply_avoidance(&mut path, &Avoidance::Sidestep { target: p(400, 0) }, true);
    assert_eq!(path.current, p(400, 0));
    assert!(path.altered);
    assert!(!path.obstructed);
    apply_avoidance(&mut path, &Avoidance::Obstruct, false);
    assert!(path.obstructed);
}
