use creature_links::colony::Colony;
use creature_links::locomotion::Hop;
use creature_links::model::Control;
use creature_links::orders::Contact;
use creature_links::species::Creature;

const TONY: u64 = 1;
const RICKY: u64 = 2;
const FLOOR: u64 = 100;
const PLANK: u64 = 101;
const WALL: u64 = 102;

fn colony_with_tony() -> Colony {
    let mut colony = Colony::new();
    assert!(Creature::spawn(&mut colony, TONY, Creature::Normal, true));
    colony
}

fn grounded(colony: &Colony, id: u64) -> u32 {
    colony.member(id).expect("a creature").grounded
}

#[test]
fn a_fresh_creature_is_in_the_air() {
    let colony = colony_with_tony();
    assert_eq!(grounded(&colony, TONY), 0);
}

#[test]
fn touching_a_body_raises_the_counter() {
    let mut colony = colony_with_tony();
    assert_eq!(colony.contact_start(TONY, FLOOR), Contact::Grounded { creature: TONY });
    assert_eq!(grounded(&colony, TONY), 1);
}

#[test]
fn the_creature_may_be_named_second() {
    let mut colony = colony_with_tony();
    assert_eq!(colony.contact_start(FLOOR, TONY), Contact::Grounded { creature: TONY });
    assert_eq!(grounded(&colony, TONY), 1);
    colony.contact_end(FLOOR, TONY);
    assert_eq!(grounded(&colony, TONY), 0);
}

#[test]
fn contacts_with_several_bodies_add_up() {
    let mut colony = colony_with_tony();
    colony.contact_start(TONY, FLOOR);
    colony.contact_start(PLANK, TONY);
    colony.contact_start(TONY, WALL);
    assert_eq!(grounded(&colony, TONY), 3);
}

#[test]
fn resting_on_two_planks_then_losing_one_keeps_the_creature_grounded() {
    let mut colony = colony_with_tony();
    colony.contact_start(TONY, FLOOR);
    colony.contact_start(TONY, PLANK);
    assert_eq!(grounded(&colony, TONY), 2);

    colony.contact_end(TONY, PLANK);
    assert_eq!(grounded(&colony, TONY), 1);
    assert!(grounded(&colony, TONY) > 0);
    assert_eq!(colony.jump(), vec![Hop { creature: TONY, impulse_hundredths: 35_000 }]);
}

#[test]
fn losing_the_last_body_puts_the_creature_in_the_air() {
    let mut colony = colony_with_tony();
    colony.contact_start(TONY, FLOOR);
    colony.contact_end(TONY, FLOOR);
    assert_eq!(grounded(&colony, TONY), 0);
    assert_eq!(colony.jump(), vec![Hop { creature: TONY, impulse_hundredths: 1_750 }]);
}

#[test]
fn an_end_without_a_beginning_leaves_the_counter_at_zero() {
    let mut colony = colony_with_tony();
    colony.contact_end(TONY, FLOOR);
    assert_eq!(grounded(&colony, TONY), 0);
    colony.contact_start(TONY, FLOOR);
    assert_eq!(grounded(&colony, TONY), 1);
}

#[test]
fn two_creatures_touching_ground_neither() {
    let mut colony = colony_with_tony();
    Creature::spawn(&mut colony, RICKY, Creature::Heavy, false);
    colony.contact_start(TONY, RICKY);
    assert_eq!(grounded(&colony, TONY), 0);
    assert_eq!(grounded(&colony, RICKY), 0);
    colony.contact_end(TONY, RICKY);
    assert_eq!(grounded(&colony, TONY), 0);
    assert_eq!(grounded(&colony, RICKY), 0);
}

#[test]
fn two_creatures_parting_leave_their_counters_alone() {
    let mut colony = colony_with_tony();
    Creature::spawn(&mut colony, RICKY, Creature::Heavy, false);
    colony.contact_start(TONY, FLOOR);
    colony.contact_start(RICKY, FLOOR);
    colony.contact_end(RICKY, TONY);
    assert_eq!(grounded(&colony, TONY), 1);
    assert_eq!(grounded(&colony, RICKY), 1);
}

#[test]
fn bodies_that_are_no_creatures_are_ignored() {
    let mut colony = colony_with_tony();
    assert_eq!(colony.contact_start(FLOOR, PLANK), Contact::Ignored);
    colony.contact_end(FLOOR, PLANK);
    assert_eq!(grounded(&colony, TONY), 0);
    assert_eq!(colony.link_count(), 0);
}

#[test]
fn an_event_about_a_body_that_is_gone_is_passed_over() {
    let mut colony = Colony::new();
    colony.contact_end(TONY, FLOOR);
    assert_eq!(colony.contact_start(TONY, FLOOR), Contact::Ignored);
    assert_eq!(colony.len(), 0);
}

#[test]
fn ground_contact_does_not_touch_control() {
    let mut colony = colony_with_tony();
    colony.contact_start(TONY, FLOOR);
    colony.contact_end(TONY, FLOOR);
    assert_eq!(colony.member(TONY).unwrap().control, Control::Controlled);
    assert_eq!(colony.main_creature(), Some(TONY));
}

#[test]
fn a_tick_of_contact_starts_is_drained_in_order() {
    let mut colony = colony_with_tony();
    Creature::spawn(&mut colony, RICKY, Creature::Bouncy, false);
    let outcomes = colony.on_collision_enter(&vec![
        (TONY, FLOOR),
        (PLANK, TONY),
        (FLOOR, RICKY),
        (FLOOR, PLANK),
    ]);
    assert_eq!(
        outcomes,
        vec![
            Contact::Grounded { creature: TONY },
            Contact::Grounded { creature: TONY },
            Contact::Grounded { creature: RICKY },
            Contact::Ignored,
        ]
    );
    assert_eq!(grounded(&colony, TONY), 2);
    assert_eq!(grounded(&colony, RICKY), 1);
}

#[test]
fn a_tick_of_contact_ends_is_drained_in_order() {
    let mut colony = colony_with_tony();
    colony.on_collision_enter(&vec![(TONY, FLOOR), (TONY, PLANK), (TONY, WALL)]);
    colony.on_collision_exit(&vec![(TONY, FLOOR), (WALL, TONY)]);
    assert_eq!(grounded(&colony, TONY), 1);
    colony.on_collision_exit(&vec![(TONY, PLANK), (TONY, PLANK)]);
    assert_eq!(grounded(&colony, TONY), 0);
}

#[test]
fn the_counter_equals_the_bodies_that_touch() {
    let mut colony = colony_with_tony();
    let bodies: Vec<u64> = vec![FLOOR, PLANK, WALL, 103, 104];
    let mut touching: Vec<u64> = Vec::new();
    for round in 0..4usize {
        for (n, body) in bodies.iter().enumerate() {
            let is_touching = touching.contains(body);
            if (n + round) % 2 == 0 && !is_touching {
                colony.contact_start(TONY, *body);
                touching.push(*body);
            } else if is_touching {
                colony.contact_end(*body, TONY);
                touching.retain(|b| b != body);
            }
            assert_eq!(grounded(&colony, TONY) as usize, touching.len());
        }
    }
}
