use space_shooter::background::scroll_key;
use space_shooter::input::{Input, KeyState};
use space_shooter::player::movement_key;

#[test]
fn new_input_has_nothing_pressed() {
    let input = Input::new();
    for k in ["a", "d", "s", "w", "f", "v", "", "ad"] {
        assert!(!input.is_pressed(k));
    }
}

#[test]
fn update_then_read_back() {
    let mut input = Input::new();
    input.update("a", KeyState::Pressed);
    assert!(input.is_pressed("a"));
    assert!(!input.is_pressed("d"));
    input.update("f", KeyState::Pressed);
    assert!(input.is_pressed("f"));
    assert!(input.is_pressed("a"));
    input.update("a", KeyState::Released);
    assert!(!input.is_pressed("a"));
    assert!(input.is_pressed("f"));
}

#[test]
fn untracked_keys_are_ignored() {
    let mut input = Input::new();
    input.update("v", KeyState::Pressed);
    input.update("aa", KeyState::Pressed);
    input.update("", KeyState::Pressed);
    assert!(!input.is_pressed("v"));
    assert!(!input.is_pressed("aa"));
    assert!(!input.is_pressed(""));
    assert!(!input.is_pressed("a"));
}

#[test]
fn every_tracked_key_is_remembered() {
    let mut input = Input::new();
    for k in ["a", "d", "s", "w", "f"] {
        input.update(k, KeyState::Pressed);
    }
    for k in ["a", "d", "s", "w", "f"] {
        assert!(input.is_pressed(k));
    }
    input.update("s", KeyState::Released);
    assert!(!input.is_pressed("s"));
    assert!(input.is_pressed("w"));
}

#[test]
fn movement_key_priority() {
    let mut input = Input::new();
    assert_eq!(movement_key(&input), None);
    input.update("w", KeyState::Pressed);
    assert_eq!(movement_key(&input), Some("w"));
    input.update("s", KeyState::Pressed);
    assert_eq!(movement_key(&input), Some("s"));
    input.update("a", KeyState::Pressed);
    assert_eq!(movement_key(&input), Some("a"));
    input.update("d", KeyState::Pressed);
    assert_eq!(movement_key(&input), Some("d"));
}

#[test]
fn scroll_key_priority() {
    let mut input = Input::new();
    assert_eq!(scroll_key(&input), None);
    input.update("s", KeyState::Pressed);
    assert_eq!(scroll_key(&input), Some("s"));
    input.update("w", KeyState::Pressed);
    // the background prefers w over s, the player s over w
    assert_eq!(scroll_key(&input), Some("w"));
    assert_eq!(movement_key(&input), Some("s"));
    input.update("a", KeyState::Pressed);
    assert_eq!(scroll_key(&input), Some("a"));
    input.update("d", KeyState::Pressed);
    assert_eq!(scroll_key(&input), Some("d"));
}

#[test]
fn latest_event_wins() {
    let mut input = Input::new();
    let events = [("a", KeyState::Pressed), ("d", KeyState::Pressed), ("a", KeyState::Released),
        ("v", KeyState::Pressed), ("d", KeyState::Pressed), ("f", KeyState::Released)];
    for (k, s) in events {
        input.update(k, s);
    }
    assert!(!input.is_pressed("a"));
    assert!(input.is_pressed("d"));
    assert!(!input.is_pressed("v"));
    assert!(!input.is_pressed("f"));
    assert!(!input.is_pressed("w"));
}
