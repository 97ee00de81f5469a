use creature_links::level::{Level, LevelKey};
use creature_links::signals::{ButtonSignal, Interaction, Signal};

const SEQUENCE: [Level; 8] = [
    Level::Loading,
    Level::Test,
    Level::Menu,
    Level::Tutorial1,
    Level::Tutorial2,
    Level::Tutorial3,
    Level::Tutorial4,
    Level::Tutorial5,
];

#[test]
fn the_game_starts_in_the_menu_by_default() {
    assert_eq!(Level::default(), Level::Menu);
}

#[test]
fn the_sequence_has_a_first_and_a_last_level() {
    assert_eq!(Level::first(), Level::Loading);
    assert_eq!(Level::last(), Level::Tutorial5);
}

#[test]
fn each_level_is_followed_by_the_next() {
    for n in 0..SEQUENCE.len() - 1 {
        assert_eq!(SEQUENCE[n].next(), Some(SEQUENCE[n + 1]));
    }
    assert_eq!(Level::Tutorial5.next(), None);
}

#[test]
fn each_level_is_preceded_by_the_previous() {
    for n in 1..SEQUENCE.len() {
        assert_eq!(SEQUENCE[n].previous(), Some(SEQUENCE[n - 1]));
    }
    assert_eq!(Level::Loading.previous(), None);
}

#[test]
fn the_restart_key_keeps_the_level() {
    for level in SEQUENCE {
        assert_eq!(level.after_key(LevelKey::Restart), level);
    }
}

#[test]
fn the_next_key_leads_on_and_from_the_last_level_to_the_menu() {
    assert_eq!(Level::Menu.after_key(LevelKey::Next), Level::Tutorial1);
    assert_eq!(Level::Tutorial4.after_key(LevelKey::Next), Level::Tutorial5);
    assert_eq!(Level::Tutorial5.after_key(LevelKey::Next), Level::Menu);
}

#[test]
fn the_previous_key_leads_back_and_from_the_first_level_to_the_menu() {
    assert_eq!(Level::Tutorial1.after_key(LevelKey::Previous), Level::Menu);
    assert_eq!(Level::Test.after_key(LevelKey::Previous), Level::Loading);
    assert_eq!(Level::Loading.after_key(LevelKey::Previous), Level::Menu);
}

#[test]
fn a_pressed_exit_leads_to_the_next_level() {
    assert_eq!(Level::Tutorial1.after_signal(Signal::NextLevel, true), Some(Level::Tutorial2));
    assert_eq!(Level::Tutorial5.after_signal(Signal::NextLevel, true), Some(Level::Menu));
}

#[test]
fn a_pressed_restart_begins_the_level_again() {
    assert_eq!(Level::Tutorial3.after_signal(Signal::RestartLevel, true), Some(Level::Tutorial3));
}

#[test]
fn a_released_plate_leads_nowhere() {
    assert_eq!(Level::Tutorial1.after_signal(Signal::NextLevel, false), None);
    assert_eq!(Level::Tutorial1.after_signal(Signal::RestartLevel, false), None);
}

#[test]
fn a_signal_that_the_level_does_not_know_is_passed_over() {
    assert_eq!(Level::Tutorial5.after_signal(Signal::Door(0), true), None);
    assert_eq!(Level::Test.after_signal(Signal::Custom(0), true), None);
    assert_eq!(Level::Test.after_signal(Signal::Custom(7), false), None);
}

#[test]
fn only_a_transition_from_a_level_to_itself_is_a_reentry() {
    assert_eq!(Level::reentered(Some(Level::Test), Some(Level::Test)), Some(Level::Test));
    assert_eq!(Level::reentered(Some(Level::Test), Some(Level::Menu)), None);
    assert_eq!(Level::reentered(None, Some(Level::Menu)), None);
    assert_eq!(Level::reentered(Some(Level::Menu), None), None);
    assert_eq!(Level::reentered(None, None), None);
}

#[test]
fn a_button_fires_when_it_is_let_go_under_the_pointer() {
    let mut button = ButtonSignal::new(Signal::NextLevel);
    assert!(!button.armed);
    assert_eq!(button.interact(Interaction::Hovered), None);
    assert_eq!(button.interact(Interaction::Pressed), None);
    assert!(button.armed);
    assert_eq!(button.interact(Interaction::Hovered), Some(Signal::NextLevel));
    assert!(!button.armed);
    assert_eq!(button.interact(Interaction::Hovered), None);
}

#[test]
fn a_button_let_go_away_from_the_pointer_sends_nothing() {
    let mut button = ButtonSignal::new(Signal::RestartLevel);
    assert_eq!(button.interact(Interaction::Pressed), None);
    assert_eq!(button.interact(Interaction::Idle), None);
    assert!(!button.armed);
    assert_eq!(button.interact(Interaction::Hovered), None);
    assert_eq!(button.signal, Signal::RestartLevel);
}

#[test]
fn a_button_held_down_stays_armed() {
    let mut button = ButtonSignal::new(Signal::Custom(3));
    assert_eq!(button.interact(Interaction::Pressed), None);
    assert_eq!(button.interact(Interaction::Pressed), None);
    assert!(button.armed);
    assert_eq!(button.interact(Interaction::Hovered), Some(Signal::Custom(3)));
}
