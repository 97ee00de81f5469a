use creature_links::species::Creature;

const ALL: [Creature; 4] =
    [Creature::Normal, Creature::Bouncy, Creature::Explosive, Creature::Heavy];

#[test]
fn the_default_species_is_normal() {
    assert_eq!(Creature::default(), Creature::Normal);
}

#[test]
fn each_species_has_its_radius() {
    assert_eq!(Creature::Normal.radius(), 20);
    assert_eq!(Creature::Bouncy.radius(), 18);
    assert_eq!(Creature::Explosive.radius(), 20);
    assert_eq!(Creature::Heavy.radius(), 22);
}

#[test]
fn only_the_heavy_species_is_denser() {
    assert_eq!(Creature::Normal.density(), 1);
    assert_eq!(Creature::Bouncy.density(), 1);
    assert_eq!(Creature::Explosive.density(), 1);
    assert_eq!(Creature::Heavy.density(), 2);
}

#[test]
fn each_species_has_its_jump() {
    assert_eq!(Creature::Normal.jump(), 350);
    assert_eq!(Creature::Bouncy.jump(), 400);
    assert_eq!(Creature::Explosive.jump(), 350);
    assert_eq!(Creature::Heavy.jump(), 300);
}

#[test]
fn only_the_explosive_species_pushes_harder() {
    assert_eq!(Creature::Normal.force(), 150);
    assert_eq!(Creature::Bouncy.force(), 150);
    assert_eq!(Creature::Explosive.force(), 250);
    assert_eq!(Creature::Heavy.force(), 150);
}

#[test]
fn every_species_rolls_at_the_same_rate() {
    for species in ALL {
        assert_eq!(species.speed(), 120);
    }
}

#[test]
fn only_the_bouncy_species_bounces_more() {
    assert_eq!(Creature::Normal.bounciness(), 40);
    assert_eq!(Creature::Bouncy.bounciness(), 80);
    assert_eq!(Creature::Explosive.bounciness(), 40);
    assert_eq!(Creature::Heavy.bounciness(), 40);
}

#[test]
fn each_species_has_its_colour() {
    assert_eq!(Creature::Normal.color(), (60, 0, 80));
    assert_eq!(Creature::Bouncy.color(), (0, 80, 0));
    assert_eq!(Creature::Explosive.color(), (80, 30, 0));
    assert_eq!(Creature::Heavy.color(), (10, 10, 10));
}

#[test]
fn species_are_told_apart() {
    for (n, a) in ALL.iter().enumerate() {
        for (m, b) in ALL.iter().enumerate() {
            assert_eq!(a == b, n == m);
        }
    }
}
