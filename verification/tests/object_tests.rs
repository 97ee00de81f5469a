use creature_links::colony::Colony;
use creature_links::objects::{Door, PressurePlate, PressurePlateEvent};
use creature_links::signals::Signal;
use creature_links::species::Creature;

const PLATE: u64 = 77;
const A: u64 = 1;
const B: u64 = 2;
const C: u64 = 3;
const GLASS: u64 = 600;

#[test]
fn a_new_plate_is_not_pressed() {
    let plate = PressurePlate::new(Signal::Door(0));
    assert_eq!(plate.count, 0);
    assert!(!plate.is_pressed());
}

#[test]
fn the_first_creature_presses_the_plate() {
    let mut plate = PressurePlate::new(Signal::Door(4));
    assert_eq!(
        plate.on_pressure_enter(PLATE),
        Some(PressurePlateEvent { plate: PLATE, signal: Signal::Door(4), pressed: true })
    );
    assert!(plate.is_pressed());
    assert_eq!(plate.count, 1);
}

#[test]
fn further_creatures_on_a_pressed_plate_send_nothing() {
    let mut plate = PressurePlate::new(Signal::NextLevel);
    plate.on_pressure_enter(PLATE);
    assert_eq!(plate.on_pressure_enter(PLATE), None);
    assert_eq!(plate.on_pressure_enter(PLATE), None);
    assert_eq!(plate.count, 3);
}

#[test]
fn only_the_last_creature_releases_the_plate() {
    let mut plate = PressurePlate::new(Signal::NextLevel);
    plate.on_pressure_enter(PLATE);
    plate.on_pressure_enter(PLATE);
    assert_eq!(plate.on_pressure_exit(PLATE), None);
    assert!(plate.is_pressed());
    assert_eq!(
        plate.on_pressure_exit(PLATE),
        Some(PressurePlateEvent { plate: PLATE, signal: Signal::NextLevel, pressed: false })
    );
    assert!(!plate.is_pressed());
}

#[test]
fn a_step_off_an_empty_plate_is_passed_over() {
    let mut plate = PressurePlate::new(Signal::Custom(0));
    assert_eq!(plate.on_pressure_exit(PLATE), None);
    assert_eq!(plate.count, 0);
    assert_eq!(
        plate.on_pressure_enter(PLATE),
        Some(PressurePlateEvent { plate: PLATE, signal: Signal::Custom(0), pressed: true })
    );
}

#[test]
fn a_full_plate_stops_counting() {
    let mut plate = PressurePlate { count: u16::MAX, signal: Signal::NextLevel };
    assert_eq!(plate.on_pressure_enter(PLATE), None);
    assert_eq!(plate.count, u16::MAX);
}

#[test]
fn a_door_opens_when_a_plate_with_its_number_is_pressed() {
    let door = Door { number: 2 };
    let pressed = PressurePlateEvent { plate: PLATE, signal: Signal::Door(2), pressed: true };
    assert!(door.on_pressure_event(pressed));
}

#[test]
fn a_door_ignores_other_numbers_other_signals_and_releases() {
    let door = Door { number: 2 };
    let other_number = PressurePlateEvent { plate: PLATE, signal: Signal::Door(3), pressed: true };
    let released = PressurePlateEvent { plate: PLATE, signal: Signal::Door(2), pressed: false };
    let custom = PressurePlateEvent { plate: PLATE, signal: Signal::Custom(2), pressed: true };
    let exit = PressurePlateEvent { plate: PLATE, signal: Signal::NextLevel, pressed: true };
    assert!(!door.on_pressure_event(other_number));
    assert!(!door.on_pressure_event(released));
    assert!(!door.on_pressure_event(custom));
    assert!(!door.on_pressure_event(exit));
}

fn three_creatures_two_of_them_linked() -> Colony {
    let mut colony = Colony::new();
    Creature::spawn(&mut colony, A, Creature::Normal, true);
    Creature::spawn(&mut colony, B, Creature::Heavy, false);
    Creature::spawn(&mut colony, C, Creature::Normal, false);
    colony.contact_start(A, B);
    colony
}

#[test]
fn a_linked_creature_shatters_what_it_meets() {
    let colony = three_creatures_two_of_them_linked();
    assert_eq!(colony.glass_collision(A, GLASS), Some(GLASS));
    assert_eq!(colony.glass_collision(GLASS, B), Some(GLASS));
}

#[test]
fn a_creature_on_its_own_breaks_nothing() {
    let colony = three_creatures_two_of_them_linked();
    assert_eq!(colony.glass_collision(C, GLASS), None);
    assert_eq!(colony.glass_collision(GLASS, C), None);
}

#[test]
fn two_bodies_that_are_no_creatures_break_nothing() {
    let colony = three_creatures_two_of_them_linked();
    assert_eq!(colony.glass_collision(GLASS, 601), None);
}

#[test]
fn of_two_creatures_the_first_named_is_the_one_that_met_the_other() {
    let colony = three_creatures_two_of_them_linked();
    assert_eq!(colony.glass_collision(A, C), Some(C));
    assert_eq!(colony.glass_collision(C, A), None);
}

#[test]
fn after_an_explosion_no_creature_breaks_glass() {
    let mut colony = three_creatures_two_of_them_linked();
    colony.explode();
    assert_eq!(colony.glass_collision(A, GLASS), None);
    assert_eq!(colony.glass_collision(B, GLASS), None);
}

#[test]
fn the_visitor_is_the_first_creature_named() {
    let colony = three_creatures_two_of_them_linked();
    assert_eq!(colony.visitor(A, PLATE), Some((A, PLATE)));
    assert_eq!(colony.visitor(PLATE, B), Some((B, PLATE)));
    assert_eq!(colony.visitor(C, A), Some((C, A)));
    assert_eq!(colony.visitor(PLATE, GLASS), None);
}
