//! Tests for transitions, the keymap, and name-based configuration.

use tokey::config::{keymap_from_names, ConfigError};
use tokey::events::Transition;
use tokey::keymap::Keymap;
use tokey::machine::StateMachine;

#[test]
fn transition_from_raw_accepts_known_values() {
    assert_eq!(Transition::from_raw(0), Some(Transition::Up));
    assert_eq!(Transition::from_raw(1), Some(Transition::Down));
    assert_eq!(Transition::from_raw(2), Some(Transition::Repeat));
}

#[test]
fn transition_from_raw_rejects_out_of_range_values() {
    assert_eq!(Transition::from_raw(-1), None);
    assert_eq!(Transition::from_raw(3), None);
    assert_eq!(Transition::from_raw(i32::MIN), None);
}

#[test]
fn transition_to_raw_round_trips() {
    for raw in 0..3 {
        let t = Transition::from_raw(raw).unwrap();
        assert_eq!(t.to_raw(), raw);
    }
}

#[test]
fn keymap_lookup_maps_present_keys() {
    let km = Keymap::from_pairs(vec![(36, 105), (38, 106)]);
    assert_eq!(km.get(36), Some(105));
    assert_eq!(km.lookup(36), 105);
    assert_eq!(km.get(38), Some(106));
}

#[test]
fn keymap_lookup_passes_absent_keys_through() {
    let km = Keymap::from_pairs(vec![(36, 105)]);
    assert_eq!(km.get(37), None);
    assert_eq!(km.lookup(37), 37);
}

#[test]
fn keymap_later_pair_wins() {
    let km = Keymap::from_pairs(vec![(36, 105), (36, 106)]);
    assert_eq!(km.get(36), Some(106));
}

#[test]
fn keymap_from_names_resolves_through_evdev() {
    let pairs = vec![("KEY_J".to_string(), "KEY_LEFT".to_string())];
    let km = keymap_from_names(&pairs).unwrap();
    assert_eq!(km.get(evdev::KeyCode::KEY_J.code()), Some(evdev::KeyCode::KEY_LEFT.code()));
    assert_eq!(km.get(evdev::KeyCode::KEY_K.code()), None);
}

#[test]
fn keymap_from_names_rejects_unknown_source_key() {
    let pairs = vec![("KEY_NO_SUCH_KEY".to_string(), "KEY_LEFT".to_string())];
    assert_eq!(keymap_from_names(&pairs).err(), Some(ConfigError::BadKeymapKey));
}

#[test]
fn keymap_from_names_rejects_unknown_destination_key() {
    let pairs = vec![("KEY_J".to_string(), "KEY_NO_SUCH_KEY".to_string())];
    assert_eq!(keymap_from_names(&pairs).err(), Some(ConfigError::BadKeymapValue));
}

#[test]
fn keymap_from_names_reports_first_bad_pair() {
    let pairs = vec![
        ("KEY_J".to_string(), "KEY_NO_SUCH_KEY".to_string()),
        ("KEY_NO_SUCH_KEY".to_string(), "KEY_LEFT".to_string()),
    ];
    assert_eq!(keymap_from_names(&pairs).err(), Some(ConfigError::BadKeymapValue));
}

#[test]
fn machine_from_names_builds_configured_engine() {
    let pairs = vec![("KEY_J".to_string(), "KEY_LEFT".to_string())];
    let m = StateMachine::from_names("KEY_SPACE", "KEY_RIGHTALT", 200, &pairs).unwrap();
    assert_eq!(m.fn_key(), evdev::KeyCode::KEY_SPACE.code());
    assert_eq!(m.pause_key(), evdev::KeyCode::KEY_RIGHTALT.code());
    assert_eq!(m.timeout_ms(), 200);
    assert!(!m.is_paused());
}

#[test]
fn machine_from_names_rejects_bad_fn_key() {
    let pairs: Vec<(String, String)> = Vec::new();
    let r = StateMachine::from_names("KEY_NO_SUCH_KEY", "KEY_RIGHTALT", 200, &pairs);
    assert_eq!(r.err(), Some(ConfigError::BadFnKey));
}

#[test]
fn machine_from_names_rejects_bad_pause_key() {
    let pairs: Vec<(String, String)> = Vec::new();
    let r = StateMachine::from_names("KEY_SPACE", "KEY_NO_SUCH_KEY", 200, &pairs);
    assert_eq!(r.err(), Some(ConfigError::BadPauseKey));
}

#[test]
fn machine_from_names_reports_keymap_errors() {
    let pairs = vec![("KEY_NO_SUCH_KEY".to_string(), "KEY_LEFT".to_string())];
    let r = StateMachine::from_names("KEY_SPACE", "KEY_RIGHTALT", 200, &pairs);
    assert_eq!(r.err(), Some(ConfigError::BadKeymapKey));
}
