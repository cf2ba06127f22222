use svincraft::click::{give_path_on_click, Click, TaskChange};
use svincraft::geometry::Position;
use svincraft::locator::{Locator, LocatorSlot};
use svincraft::occupancy::Occupancy;
use svincraft::path::NavmeshAnswer;
use svincraft::resource_collection::ResourceCollectionStage;
use svincraft::task::NpcTaskResourceCollection;

fn slots() -> Vec<LocatorSlot<u8>> {
    vec![
        LocatorSlot { entity: 30, locator: Locator::Spawn, position: Position::new(10, 0, 0), rotation: 1 },
        LocatorSlot { entity: 31, locator: Locator::Interact, position: Position::new(4000, 50, 0), rotation: 2 },
        LocatorSlot { entity: 32, locator: Locator::Interact, position: Position::new(3000, 50, 0), rotation: 3 },
    ]
}

fn answer(points: &[(i32, i32)]) -> NavmeshAnswer {
    NavmeshAnswer {
        target_in_mesh: true,
        route: Some(points.iter().map(|(x, z)| Position::new(*x, 0, *z)).collect()),
    }
}

#[test]
fn a_click_on_a_deposit_starts_a_collection() {
    let click = Click {
        entity: 7,
        position: Position::new(3500, 100, 0),
        interact_slots: Some(slots()),
        collectable: true,
        selected_unit: false,
    };
    let order = give_path_on_click(&click, &Position::new(0, 600, 0), &Occupancy::new()).unwrap();
    assert_eq!(order.request.from, Position::new(0, 0, 0));
    assert_eq!(order.request.to, Position::new(3000, 0, 0));
    assert_eq!(order.request.target_rotation, Some(3));
    assert_eq!(order.request.target_entity, Some(32));
    assert_eq!(order.shown_at, Position::new(3000, 50, 0));
    assert_eq!(
        order.task,
        TaskChange::Assign {
            task: NpcTaskResourceCollection {
                stage: ResourceCollectionStage::MovingToResource,
                resource_entity: Some(7)
            }
        }
    );
    let accepted = order.accept(&answer(&[(1000, 0), (3000, 0)])).unwrap();
    assert_eq!(accepted.path.current, Position::new(1000, 0, 0));
    assert_eq!(accepted.path.next, vec![Position::new(3000, 0, 0)]);
    assert_eq!(accepted.path.target_entity, Some(32));
    assert_eq!(accepted.path.target_rotation, Some(3));
    assert_eq!(accepted.shown_at, Position::new(3000, 50, 0));
    assert_eq!(accepted.task, order.task);
}

#[test]
fn a_click_on_a_base_keeps_the_task() {
    let click = Click {
        entity: 8,
        position: Position::new(0, 0, 0),
        interact_slots: Some(slots()),
        collectable: false,
        selected_unit: false,
    };
    let mut occupancy = Occupancy::new();
    occupancy.claim(2, 32);
    let order = give_path_on_click(&click, &Position::new(0, 0, 0), &occupancy).unwrap();
    assert_eq!(order.request.target_entity, Some(31));
    assert_eq!(order.task, TaskChange::Keep);
}

#[test]
fn a_click_on_the_ground_ends_the_task() {
    let click: Click<u8> = Click {
        entity: 9,
        position: Position::new(700, 3, -200),
        interact_slots: None,
        collectable: false,
        selected_unit: false,
    };
    let order = give_path_on_click(&click, &Position::new(5, 600, 5), &Occupancy::new()).unwrap();
    assert_eq!(order.request.from, Position::new(5, 0, 5));
    assert_eq!(order.request.to, Position::new(700, 0, -200));
    assert_eq!(order.request.target_rotation, None);
    assert_eq!(order.request.target_entity, None);
    assert_eq!(order.shown_at, Position::new(700, 3, -200));
    assert_eq!(order.task, TaskChange::Cancel);
}

#[test]
fn a_click_on_a_selected_unit_asks_nothing() {
    let click: Click<u8> = Click {
        entity: 9,
        position: Position::new(700, 3, -200),
        interact_slots: None,
        collectable: false,
        selected_unit: true,
    };
    assert!(give_path_on_click(&click, &Position::new(5, 600, 5), &Occupancy::new()).is_none());
}

#[test]
fn a_move_off_the_mesh_is_turned_down() {
    let click: Click<u8> = Click {
        entity: 9,
        position: Position::new(700, 3, -200),
        interact_slots: None,
        collectable: false,
        selected_unit: false,
    };
    let order = give_path_on_click(&click, &Position::new(5, 600, 5), &Occupancy::new()).unwrap();
    let outside = NavmeshAnswer { target_in_mesh: false, route: None };
    assert!(order.accept(&outside).is_none());
    let cut_off = NavmeshAnswer { target_in_mesh: true, route: None };
    assert!(order.accept(&cut_off).is_none());
    assert!(order.accept(&answer(&[(700, -200)])).is_some());
}
