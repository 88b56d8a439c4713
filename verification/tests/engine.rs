//! Scenario tests driving the engine through its three phases.

use tokey::events::{InputKey, OutputKey, Transition};
use tokey::keymap::Keymap;
use tokey::machine::StateMachine;
use tokey::model::Phase;

const KEY_SPACE: u16 = 57;
const KEY_J: u16 = 36;
const KEY_LEFT: u16 = 105;
const KEY_RIGHTALT: u16 = 100;
const KEY_A: u16 = 30;

fn test_machine(timeout_ms: u64) -> StateMachine {
    let keymap = Keymap::from_pairs(vec![(KEY_J, KEY_LEFT)]);
    StateMachine::new(KEY_SPACE, KEY_RIGHTALT, timeout_ms, keymap)
}

fn down(code: u16, time_ms: u64) -> InputKey {
    InputKey { code, transition: Transition::Down, time_ms }
}

fn up(code: u16, time_ms: u64) -> InputKey {
    InputKey { code, transition: Transition::Up, time_ms }
}

fn repeat(code: u16, time_ms: u64) -> InputKey {
    InputKey { code, transition: Transition::Repeat, time_ms }
}

fn out_down(code: u16) -> OutputKey {
    OutputKey { code, transition: Transition::Down }
}

fn out_up(code: u16) -> OutputKey {
    OutputKey { code, transition: Transition::Up }
}

#[test]
fn tap_through() {
    let mut m = test_machine(200);
    assert_eq!(m.run(down(KEY_SPACE, 0)), vec![]);
    assert_eq!(m.current_phase(), Phase::Deciding);
    assert_eq!(m.run(up(KEY_SPACE, 50)), vec![out_down(KEY_SPACE), out_up(KEY_SPACE)]);
    assert_eq!(m.current_phase(), Phase::Idle);
}

#[test]
fn fast_resolution_by_key_release() {
    let mut m = test_machine(200);
    assert_eq!(m.run(down(KEY_SPACE, 0)), vec![]);
    assert_eq!(m.run(down(KEY_J, 10)), vec![]);
    assert_eq!(m.run(up(KEY_J, 20)), vec![out_down(KEY_LEFT), out_up(KEY_LEFT)]);
    assert_eq!(m.current_phase(), Phase::Shifted);
}

#[test]
fn timeout_enters_shifted_and_handles_event_there() {
    let mut m = test_machine(200);
    assert_eq!(m.run(down(KEY_SPACE, 0)), vec![]);
    // The timeout has elapsed: nothing is buffered, so nothing is flushed,
    // and the triggering event is handled under the Shifted rules.
    assert_eq!(m.run(down(KEY_A, 250)), vec![out_down(KEY_A)]);
    assert_eq!(m.current_phase(), Phase::Shifted);
}

#[test]
fn timeout_flushes_buffered_keys_as_pairs() {
    let mut m = test_machine(200);
    assert_eq!(m.run(down(KEY_SPACE, 0)), vec![]);
    assert_eq!(m.run(down(KEY_J, 10)), vec![]);
    // The J release arrives after the timeout: the buffered J is flushed as
    // a remapped down/up pair, and the release itself is then remapped under
    // the Shifted rules.
    assert_eq!(
        m.run(up(KEY_J, 300)),
        vec![out_down(KEY_LEFT), out_up(KEY_LEFT), out_up(KEY_LEFT)]
    );
    assert_eq!(m.current_phase(), Phase::Shifted);
}

#[test]
fn shifted_remaps_mapped_keys() {
    let mut m = test_machine(200);
    assert_eq!(m.run(down(KEY_SPACE, 0)), vec![]);
    assert_eq!(m.run(down(KEY_A, 250)), vec![out_down(KEY_A)]);
    assert_eq!(m.current_phase(), Phase::Shifted);
    assert_eq!(m.run(down(KEY_J, 260)), vec![out_down(KEY_LEFT)]);
    assert_eq!(m.run(up(KEY_J, 270)), vec![out_up(KEY_LEFT)]);
    assert_eq!(m.current_phase(), Phase::Shifted);
}

#[test]
fn shifted_passes_unmapped_keys_through() {
    let mut m = test_machine(200);
    assert_eq!(m.run(down(KEY_SPACE, 0)), vec![]);
    assert_eq!(m.run(down(KEY_A, 250)), vec![out_down(KEY_A)]);
    assert_eq!(m.run(up(KEY_A, 260)), vec![out_up(KEY_A)]);
    assert_eq!(m.current_phase(), Phase::Shifted);
}

#[test]
fn shifted_repeat_of_mapped_key() {
    let mut m = test_machine(200);
    assert_eq!(m.run(down(KEY_SPACE, 0)), vec![]);
    assert_eq!(m.run(down(KEY_J, 250)), vec![out_down(KEY_LEFT)]);
    assert_eq!(
        m.run(repeat(KEY_J, 260)),
        vec![OutputKey { code: KEY_LEFT, transition: Transition::Repeat }]
    );
}

#[test]
fn mod_tap_release_releases_held_layer_keys() {
    let mut m = test_machine(200);
    assert_eq!(m.run(down(KEY_SPACE, 0)), vec![]);
    assert_eq!(m.run(down(KEY_A, 250)), vec![out_down(KEY_A)]);
    assert_eq!(m.run(down(KEY_J, 260)), vec![out_down(KEY_LEFT)]);
    // Releasing the mod-tap key releases everything still buffered.
    assert_eq!(m.run(up(KEY_SPACE, 270)), vec![out_up(KEY_LEFT)]);
    assert_eq!(m.current_phase(), Phase::Idle);
}

#[test]
fn tap_replays_buffered_keys_as_downs() {
    let mut m = test_machine(200);
    assert_eq!(m.run(down(KEY_SPACE, 0)), vec![]);
    assert_eq!(m.run(down(KEY_A, 10)), vec![]);
    assert_eq!(
        m.run(up(KEY_SPACE, 50)),
        vec![out_down(KEY_SPACE), out_up(KEY_SPACE), out_down(KEY_A)]
    );
    assert_eq!(m.current_phase(), Phase::Idle);
    // The held key's own release now passes through in Idle.
    assert_eq!(m.run(up(KEY_A, 60)), vec![out_up(KEY_A)]);
}

#[test]
fn deciding_repeat_is_consumed() {
    let mut m = test_machine(200);
    assert_eq!(m.run(down(KEY_SPACE, 0)), vec![]);
    assert_eq!(m.run(down(KEY_J, 10)), vec![]);
    assert_eq!(m.run(repeat(KEY_J, 20)), vec![]);
    assert_eq!(m.current_phase(), Phase::Deciding);
}

#[test]
fn deciding_forwards_release_of_key_pressed_before() {
    let mut m = test_machine(200);
    assert_eq!(m.run(down(KEY_A, 0)), vec![out_down(KEY_A)]);
    assert_eq!(m.run(down(KEY_SPACE, 10)), vec![]);
    // A was pressed before the mod-tap key, so its release is not buffered
    // and passes through.
    assert_eq!(m.run(up(KEY_A, 20)), vec![out_up(KEY_A)]);
    assert_eq!(m.current_phase(), Phase::Deciding);
}

#[test]
fn pause_toggle_twice_is_idempotent() {
    let mut m = test_machine(200);
    assert!(!m.is_paused());
    assert_eq!(m.run(down(KEY_RIGHTALT, 0)), vec![]);
    assert!(m.is_paused());
    assert_eq!(m.run(down(KEY_RIGHTALT, 10)), vec![]);
    assert!(!m.is_paused());
    assert_eq!(m.current_phase(), Phase::Idle);
}

#[test]
fn paused_engine_passes_mod_tap_through() {
    let mut m = test_machine(200);
    assert_eq!(m.run(down(KEY_RIGHTALT, 0)), vec![]);
    assert!(m.is_paused());
    assert_eq!(m.run(down(KEY_SPACE, 10)), vec![out_down(KEY_SPACE)]);
    assert_eq!(m.current_phase(), Phase::Idle);
    assert_eq!(m.run(up(KEY_SPACE, 20)), vec![out_up(KEY_SPACE)]);
}

#[test]
fn idle_passes_unmapped_keys_through() {
    let mut m = test_machine(200);
    assert_eq!(m.run(down(KEY_A, 0)), vec![out_down(KEY_A)]);
    assert_eq!(m.run(up(KEY_A, 10)), vec![out_up(KEY_A)]);
    // Mapped keys also pass through while Idle: the keymap is only active in
    // the shifted layer.
    assert_eq!(m.run(down(KEY_J, 20)), vec![out_down(KEY_J)]);
    assert_eq!(m.run(up(KEY_J, 30)), vec![out_up(KEY_J)]);
    assert_eq!(m.current_phase(), Phase::Idle);
}

#[test]
fn space_j_scenario() {
    // Keymap {KEY_J -> KEY_LEFT}, mod-tap KEY_SPACE, timeout 200 ms.
    // SPACE down, J down, J up within 50 ms, then SPACE up: the output is
    // exactly LEFT down, LEFT up; no SPACE is emitted; the engine ends Idle.
    let mut m = test_machine(200);
    let mut outputs: Vec<OutputKey> = Vec::new();
    outputs.extend(m.run(down(KEY_SPACE, 0)));
    outputs.extend(m.run(down(KEY_J, 10)));
    outputs.extend(m.run(up(KEY_J, 20)));
    outputs.extend(m.run(up(KEY_SPACE, 50)));
    assert_eq!(outputs, vec![out_down(KEY_LEFT), out_up(KEY_LEFT)]);
    assert_eq!(m.current_phase(), Phase::Idle);
}

#[test]
fn unmapped_key_held_across_window_is_not_stuck() {
    // A key outside the keymap may be held while the ambiguity window opens:
    // its pass-through down is still closed by its own release.
    let mut m = test_machine(200);
    let events = vec![
        down(KEY_A, 0),
        down(KEY_SPACE, 10),
        down(KEY_J, 20),
        up(KEY_J, 30),
        up(KEY_SPACE, 40),
        up(KEY_A, 50),
    ];
    let outputs = m.run_all(&events);
    assert_eq!(
        outputs,
        vec![out_down(KEY_A), out_down(KEY_LEFT), out_up(KEY_LEFT), out_up(KEY_A)]
    );
    assert_eq!(m.current_phase(), Phase::Idle);
}

#[test]
fn run_all_concatenates_step_outputs() {
    let mut m = test_machine(200);
    let events = vec![down(KEY_SPACE, 0), down(KEY_J, 10), up(KEY_J, 20), up(KEY_SPACE, 50)];
    let outputs = m.run_all(&events);
    assert_eq!(outputs, vec![out_down(KEY_LEFT), out_up(KEY_LEFT)]);
    assert_eq!(m.current_phase(), Phase::Idle);
}

#[test]
fn no_stuck_key_over_a_session() {
    // Every synthesized down is followed by an up of the same keycode once
    // every physical key is released, for a session whose ambiguity windows
    // are opened with no other key held.
    let mut m = test_machine(200);
    let events = vec![
        down(KEY_A, 0),
        up(KEY_A, 5),
        down(KEY_SPACE, 10),
        down(KEY_J, 20),
        up(KEY_J, 30),
        down(KEY_A, 40),
        up(KEY_SPACE, 260),
        up(KEY_A, 270),
        down(KEY_RIGHTALT, 280),
        up(KEY_RIGHTALT, 290),
        down(KEY_SPACE, 300),
        up(KEY_SPACE, 320),
    ];
    let mut outputs: Vec<OutputKey> = Vec::new();
    for ev in events {
        outputs.extend(m.run(ev));
    }
    for (i, o) in outputs.iter().enumerate() {
        if o.transition == Transition::Down {
            let closed = outputs[i + 1..]
                .iter()
                .any(|later| later.code == o.code && later.transition == Transition::Up);
            assert!(closed, "down of {} at {} never released", o.code, i);
        }
    }
    assert_eq!(m.current_phase(), Phase::Idle);
}
