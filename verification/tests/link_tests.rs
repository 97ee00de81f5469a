use creature_links::colony::Colony;
use creature_links::model::Control;
use creature_links::orders::{Burst, Contact, Joint, LINK_COMPLIANCE_MILLIONTHS};
use creature_links::species::Creature;

const A: u64 = 10;
const B: u64 = 20;
const C: u64 = 30;
const D: u64 = 40;
const FLOOR: u64 = 900;

fn colony_of(species: &[(u64, Creature)]) -> Colony {
    let mut colony = Colony::new();
    for (id, kind) in species {
        assert!(Creature::spawn(&mut colony, *id, *kind, false));
    }
    colony
}

#[test]
fn two_normal_creatures_collide_link_and_explode() {
    let mut colony = colony_of(&[(A, Creature::Normal), (B, Creature::Normal)]);
    let outcome = colony.contact_start(A, B);
    assert_eq!(
        outcome,
        Contact::Linked(Joint {
            first: A,
            second: B,
            first_reach: 20,
            second_reach: 20,
            spread_to: None,
        })
    );
    assert_eq!(colony.link_count(), 1);
    assert!(colony.are_linked(A, B));

    let bursts = colony.explode();
    assert_eq!(bursts, vec![Burst { first: A, second: B, impulse: 300 }]);
    assert_eq!(colony.link_count(), 0);
    assert!(!colony.are_linked(A, B));
}

#[test]
fn the_anchors_reach_as_far_as_each_radius() {
    let mut colony = colony_of(&[(A, Creature::Heavy), (B, Creature::Bouncy)]);
    match colony.contact_start(B, A) {
        Contact::Linked(joint) => {
            assert_eq!(joint.first, B);
            assert_eq!(joint.second, A);
            assert_eq!(joint.first_reach, 18);
            assert_eq!(joint.second_reach, 22);
        }
        other => panic!("no link was made: {:?}", other),
    }
}

#[test]
fn the_joint_is_soft_but_holds() {
    assert_eq!(LINK_COMPLIANCE_MILLIONTHS, 10);
}

#[test]
fn further_contacts_between_linked_creatures_add_no_link() {
    let mut colony = colony_of(&[(A, Creature::Normal), (B, Creature::Normal)]);
    assert!(matches!(colony.contact_start(A, B), Contact::Linked(_)));
    assert_eq!(colony.contact_start(A, B), Contact::AlreadyLinked);
    assert_eq!(colony.contact_start(B, A), Contact::AlreadyLinked);
    assert_eq!(colony.contact_start(B, A), Contact::AlreadyLinked);
    assert_eq!(colony.link_count(), 1);
    assert_eq!(colony.links(), vec![(A, B)]);
}

#[test]
fn both_orders_in_one_tick_make_one_link() {
    let mut colony = colony_of(&[(A, Creature::Normal), (B, Creature::Normal)]);
    let outcomes = colony.on_collision_enter(&vec![(A, B), (B, A)]);
    assert!(matches!(outcomes[0], Contact::Linked(_)));
    assert_eq!(outcomes[1], Contact::AlreadyLinked);
    assert_eq!(colony.link_count(), 1);
}

#[test]
fn a_link_is_found_in_either_order() {
    let mut colony = colony_of(&[(A, Creature::Normal), (B, Creature::Normal), (C, Creature::Normal)]);
    colony.contact_start(B, A);
    assert!(colony.are_linked(A, B));
    assert!(colony.are_linked(B, A));
    assert!(!colony.are_linked(A, C));
    assert!(!colony.are_linked(C, B));
    assert!(!colony.are_linked(A, FLOOR));
    assert!(!colony.are_linked(FLOOR, A));
}

#[test]
fn a_creature_does_not_link_to_itself() {
    let mut colony = colony_of(&[(A, Creature::Normal)]);
    assert_eq!(colony.contact_start(A, A), Contact::Ignored);
    assert_eq!(colony.link_count(), 0);
    assert!(!colony.are_linked(A, A));
    assert_eq!(colony.member(A).unwrap().grounded, 0);
}

#[test]
fn a_link_ends_no_contact() {
    let mut colony = colony_of(&[(A, Creature::Normal), (B, Creature::Normal)]);
    colony.contact_start(A, B);
    colony.contact_end(A, B);
    assert!(colony.are_linked(A, B));
    assert_eq!(colony.link_count(), 1);
}

#[test]
fn neighbors_are_the_creatures_linked_directly() {
    let mut colony = colony_of(&[
        (A, Creature::Normal),
        (B, Creature::Normal),
        (C, Creature::Normal),
        (D, Creature::Normal),
    ]);
    colony.contact_start(A, B);
    colony.contact_start(C, B);
    colony.contact_start(C, D);
    assert_eq!(colony.neighbors(A), vec![B]);
    assert_eq!(colony.neighbors(B), vec![A, C]);
    assert_eq!(colony.neighbors(C), vec![B, D]);
    assert_eq!(colony.neighbors(D), vec![C]);
    assert_eq!(colony.neighbors(FLOOR), Vec::<u64>::new());
    assert_eq!(colony.links(), vec![(A, B), (C, B), (C, D)]);
}

#[test]
fn a_creature_without_links_has_no_neighbors() {
    let colony = colony_of(&[(A, Creature::Normal), (B, Creature::Normal)]);
    assert_eq!(colony.neighbors(A), Vec::<u64>::new());
    assert_eq!(colony.links(), Vec::<(u64, u64)>::new());
}

#[test]
fn an_explosion_pushes_with_the_force_of_both_species() {
    let mut colony = colony_of(&[
        (A, Creature::Explosive),
        (B, Creature::Normal),
        (C, Creature::Explosive),
        (D, Creature::Heavy),
    ]);
    colony.contact_start(A, B);
    colony.contact_start(A, C);
    colony.contact_start(D, B);
    assert_eq!(
        colony.explode(),
        vec![
            Burst { first: A, second: B, impulse: 400 },
            Burst { first: A, second: C, impulse: 500 },
            Burst { first: D, second: B, impulse: 300 },
        ]
    );
}

#[test]
fn a_creature_in_several_links_is_pushed_once_for_each() {
    let mut colony = colony_of(&[(A, Creature::Normal), (B, Creature::Normal), (C, Creature::Normal)]);
    colony.contact_start(A, B);
    colony.contact_start(B, C);
    let bursts = colony.explode();
    let pushes_on_b = bursts.iter().filter(|b| b.first == B || b.second == B).count();
    assert_eq!(pushes_on_b, 2);
    assert_eq!(bursts.len(), 2);
}

#[test]
fn an_explosion_leaves_no_link() {
    let mut colony = colony_of(&[(A, Creature::Normal), (B, Creature::Normal), (C, Creature::Normal)]);
    colony.contact_start(A, B);
    colony.contact_start(B, C);
    colony.contact_start(C, A);
    assert_eq!(colony.link_count(), 3);
    colony.explode();
    assert_eq!(colony.link_count(), 0);
    assert_eq!(colony.links(), Vec::<(u64, u64)>::new());
    for id in [A, B, C] {
        assert_eq!(colony.neighbors(id), Vec::<u64>::new());
    }
}

#[test]
fn an_explosion_without_links_pushes_nobody() {
    let mut colony = colony_of(&[(A, Creature::Normal)]);
    assert_eq!(colony.explode(), Vec::<Burst>::new());
    assert_eq!(colony.len(), 1);
}

#[test]
fn creatures_can_link_again_after_an_explosion() {
    let mut colony = colony_of(&[(A, Creature::Normal), (B, Creature::Normal)]);
    colony.contact_start(A, B);
    colony.explode();
    assert!(matches!(colony.contact_start(B, A), Contact::Linked(_)));
    assert_eq!(colony.links(), vec![(B, A)]);
}

#[test]
fn an_explosion_keeps_the_ground_counters() {
    let mut colony = colony_of(&[(A, Creature::Normal), (B, Creature::Normal)]);
    colony.contact_start(A, FLOOR);
    colony.contact_start(A, B);
    colony.explode();
    assert_eq!(colony.member(A).unwrap().grounded, 1);
    assert_eq!(colony.member(B).unwrap().grounded, 0);
}

#[test]
fn a_link_between_two_uncontrolled_creatures_spreads_nothing() {
    let mut colony = colony_of(&[(A, Creature::Normal), (B, Creature::Normal)]);
    colony.contact_start(A, B);
    assert_eq!(colony.member(A).unwrap().control, Control::Uncontrolled);
    assert_eq!(colony.member(B).unwrap().control, Control::Uncontrolled);
    assert_eq!(colony.on_spread_control(), Vec::<u64>::new());
}
