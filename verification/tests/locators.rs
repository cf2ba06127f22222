use svincraft::geometry::Position;
use svincraft::locator::{
    collect_locators_for_container, is_locator_name, marker, pick_nearest_locator, Locator,
    LocatorSlot, NamedEntity,
};
use svincraft::occupancy::Occupancy;

fn slot(entity: u64, locator: Locator, x: i32, z: i32) -> LocatorSlot<u8> {
    LocatorSlot { entity, locator, position: Position::new(x, 0, z), rotation: entity as u8 }
}

fn named(entity: u64, name: Option<&str>) -> NamedEntity {
    NamedEntity { entity, name: name.map(|n| n.to_string()) }
}

#[test]
fn markers_are_the_fixed_texts() {
    assert_eq!(marker(Locator::Spawn), "spawn_locator");
    assert_eq!(marker(Locator::Interact), "interact_locator");
    assert_eq!(Locator::default(), Locator::Interact);
}

#[test]
fn locator_names_are_found_by_their_marker() {
    assert!(is_locator_name("spawn_locator", Locator::Spawn));
    assert!(is_locator_name("base.spawn_locator.003", Locator::Spawn));
    assert!(!is_locator_name("base.spawn_locato", Locator::Spawn));
    assert!(!is_locator_name("spawn_locator", Locator::Interact));
    assert!(is_locator_name("xinteract_locatorx", Locator::Interact));
    assert!(!is_locator_name("", Locator::Interact));
    assert!(!is_locator_name("Spawn_Locator", Locator::Spawn));
}

#[test]
fn only_marked_descendants_are_tagged() {
    let descendants = vec![
        named(1, Some("mesh")),
        named(2, Some("spawn_locator.001")),
        named(3, None),
        named(4, Some("interact_locator")),
        named(5, Some("spawn_locator.002")),
    ];
    assert_eq!(collect_locators_for_container(Locator::Spawn, &descendants), vec![2, 5]);
    assert_eq!(collect_locators_for_container(Locator::Interact, &descendants), vec![4]);
    assert_eq!(collect_locators_for_container(Locator::Spawn, &Vec::new()), Vec::<u64>::new());
}

#[test]
fn nearest_free_locator_is_picked() {
    let slots = vec![
        slot(10, Locator::Interact, 100, 0),
        slot(11, Locator::Interact, 20, 0),
        slot(12, Locator::Spawn, 1, 0),
        slot(13, Locator::Interact, 50, 0),
    ];
    let mut occupancy = Occupancy::new();
    let from = Position::new(0, 0, 0);
    assert_eq!(
        pick_nearest_locator(Locator::Interact, &slots, &from, &occupancy),
        Some((Position::new(20, 0, 0), 11, 11))
    );
    occupancy.claim(1, 11);
    assert_eq!(
        pick_nearest_locator(Locator::Interact, &slots, &from, &occupancy),
        Some((Position::new(50, 0, 0), 13, 13))
    );
    assert_eq!(
        pick_nearest_locator(Locator::Spawn, &slots, &from, &occupancy),
        Some((Position::new(1, 0, 0), 12, 12))
    );
}

#[test]
fn occupied_locators_fall_back_to_the_nearest() {
    let slots = vec![
        slot(10, Locator::Interact, 100, 0),
        slot(11, Locator::Interact, 20, 0),
        slot(13, Locator::Interact, 50, 0),
    ];
    let mut occupancy = Occupancy::new();
    occupancy.claim(1, 10);
    occupancy.claim(2, 11);
    occupancy.claim(3, 13);
    let from = Position::new(0, 0, 0);
    assert_eq!(
        pick_nearest_locator(Locator::Interact, &slots, &from, &occupancy),
        Some((Position::new(20, 0, 0), 11, 11))
    );
}

#[test]
fn no_locator_of_the_kind_gives_none() {
    let slots = vec![slot(12, Locator::Spawn, 1, 0)];
    let occupancy = Occupancy::new();
    let from = Position::new(0, 0, 0);
    assert_eq!(pick_nearest_locator(Locator::Interact, &slots, &from, &occupancy), None);
    assert_eq!(
        pick_nearest_locator(Locator::Interact, &Vec::<LocatorSlot<u8>>::new(), &from, &occupancy),
        None
    );
}

#[test]
fn equally_near_locators_give_the_first_listed() {
    let slots = vec![
        slot(10, Locator::Interact, 30, 40),
        slot(11, Locator::Interact, -50, 0),
        slot(12, Locator::Interact, 0, 50),
    ];
    let occupancy = Occupancy::new();
    let from = Position::new(0, 0, 0);
    assert_eq!(
        pick_nearest_locator(Locator::Interact, &slots, &from, &occupancy),
        Some((Position::new(30, 0, 40), 10, 10))
    );
}

#[test]
fn locator_distance_counts_the_height() {
    let slots = vec![
        LocatorSlot {
            entity: 10,
            locator: Locator::Interact,
            position: Position::new(10, 100, 0),
            rotation: 0u8,
        },
        LocatorSlot {
            entity: 11,
            locator: Locator::Interact,
            position: Position::new(50, 0, 0),
            rotation: 1u8,
        },
    ];
    let occupancy = Occupancy::new();
    let from = Position::new(0, 0, 0);
    assert_eq!(
        pick_nearest_locator(Locator::Interact, &slots, &from, &occupancy),
        Some((Position::new(50, 0, 0), 1, 11))
    );
}
