use svincraft::occupancy::{Occupancy, Occupied, Occupies};

#[test]
fn whom_names_the_slot() {
    assert_eq!(Occupies(42).whom(), 42);
    assert_eq!(Occupied, Occupied);
}

#[test]
fn claim_marks_the_slot_and_refers_to_it() {
    let mut occupancy = Occupancy::new();
    assert!(!occupancy.is_occupied(10));
    assert_eq!(occupancy.occupies(1), None);
    occupancy.claim(1, 10);
    assert!(occupancy.is_occupied(10));
    assert_eq!(occupancy.occupies(1), Some(Occupies(10)));
    assert_eq!(occupancy.occupies(2), None);
}

#[test]
fn release_frees_the_slot() {
    let mut occupancy = Occupancy::new();
    occupancy.claim(1, 10);
    occupancy.claim(2, 11);
    assert_eq!(occupancy.release(1), Some(Occupies(10)));
    assert!(!occupancy.is_occupied(10));
    assert!(occupancy.is_occupied(11));
    assert_eq!(occupancy.occupies(1), None);
    assert_eq!(occupancy.release(1), None);
    assert_eq!(occupancy.release(7), None);
    assert_eq!(occupancy.occupies(2), Some(Occupies(11)));
}

#[test]
fn no_two_units_hold_one_slot_when_claims_are_uncontested() {
    let mut occupancy = Occupancy::new();
    occupancy.claim(1, 10);
    occupancy.claim(2, 11);
    occupancy.release(1);
    occupancy.claim(3, 10);
    occupancy.release(2);
    occupancy.claim(1, 11);
    let held: Vec<Option<Occupies>> = (1..=3).map(|agent| occupancy.occupies(agent)).collect();
    assert_eq!(held, vec![Some(Occupies(11)), None, Some(Occupies(10))]);
}

#[test]
fn a_unit_that_claims_again_refers_to_the_new_slot() {
    let mut occupancy = Occupancy::new();
    occupancy.claim(1, 10);
    occupancy.release(1);
    occupancy.claim(1, 11);
    assert_eq!(occupancy.occupies(1), Some(Occupies(11)));
    assert!(!occupancy.is_occupied(10));
    assert!(occupancy.is_occupied(11));
}
