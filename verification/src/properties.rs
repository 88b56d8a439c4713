//! The engine's laws, proved once and for all of the model. The executable
//! engine follows the model step for step (`StateMachine::run`), so each law
//! holds of the running engine as well.

use vstd::prelude::*;
use crate::events::{InputKey, OutputKey, Transition};
use crate::keymap::lookup_spec;
use crate::model::{buffer_insert, flush_pairs, shifted_step, step_spec, MachineModel, Phase};

verus! {

/// Tap-through: from an unpaused `Idle` state, a mod-tap down followed by a
/// mod-tap up with no other event in between and before the timeout elapses
/// produces exactly the mod-tap key's own down and up, in that order, and
/// returns the engine to `Idle` with nothing buffered and nothing else
/// changed; only the recorded window-opening time remains.
pub proof fn lemma_tap_through(m: MachineModel, t1: u64, t2: u64)
    requires
        m.wf(),
        m.phase is Idle,
        !m.paused,
        m.fn_key != m.pause_key,
        t2 < t1 + m.timeout_ms,
    ensures
        ({
            let down = InputKey { code: m.fn_key, transition: Transition::Down, time_ms: t1 };
            let up = InputKey { code: m.fn_key, transition: Transition::Up, time_ms: t2 };
            let first = step_spec(m, down);
            let second = step_spec(first.0, up);
            &&& first.1 == Seq::<OutputKey>::empty()
            &&& second.1 == seq![OutputKey::down(m.fn_key), OutputKey::up(m.fn_key)]
            &&& second.0 == (MachineModel { decide_start_ms: t1, ..m })
        }),
{
    let down = InputKey { code: m.fn_key, transition: Transition::Down, time_ms: t1 };
    let up = InputKey { code: m.fn_key, transition: Transition::Up, time_ms: t2 };
    let first = step_spec(m, down);
    let second = step_spec(first.0, up);
    assert(m.buffer =~= Seq::<u16>::empty());
    assert(second.1 =~= seq![OutputKey::down(m.fn_key), OutputKey::up(m.fn_key)]);
    assert(second.0 =~~= (MachineModel { decide_start_ms: t1, ..m }));
}

/// Timeout-resolved hold: an event reaching a `Deciding` engine at or after
/// the end of the ambiguity window makes the engine flush every buffered
/// keycode as a remapped down/up pair, enter `Shifted` with an empty buffer,
/// and handle that same event under the `Shifted` rules in the same step.
pub proof fn lemma_timeout_resolves_hold(m: MachineModel, ev: InputKey)
    requires
        m.phase is Deciding,
        m.timed_out(ev),
    ensures
        ({
            let entered = MachineModel { phase: Phase::Shifted, buffer: Seq::empty(), ..m };
            let after = shifted_step(entered, ev);
            &&& step_spec(m, ev).0 == after.0
            &&& step_spec(m, ev).1 == flush_pairs(m.buffer, m.keymap) + after.1
        }),
{
}

/// Fast resolution by key release: while `Deciding`, a down of a key other
/// than the mod-tap key followed by its up, both before the timeout elapses,
/// produces exactly the remapped down and up of that key, in that order, and
/// puts the engine in `Shifted`.
pub proof fn lemma_fast_resolution(m: MachineModel, k: u16, t1: u64, t2: u64)
    requires
        m.wf(),
        m.phase is Deciding,
        k != m.fn_key,
        t1 < m.decide_start_ms + m.timeout_ms,
        t2 < m.decide_start_ms + m.timeout_ms,
    ensures
        ({
            let down = InputKey { code: k, transition: Transition::Down, time_ms: t1 };
            let up = InputKey { code: k, transition: Transition::Up, time_ms: t2 };
            let first = step_spec(m, down);
            let second = step_spec(first.0, up);
            &&& first.1 == Seq::<OutputKey>::empty()
            &&& second.1 == seq![
                OutputKey::down(lookup_spec(m.keymap, k)),
                OutputKey::up(lookup_spec(m.keymap, k)),
            ]
            &&& second.0.phase is Shifted
        }),
{
    let down = InputKey { code: k, transition: Transition::Down, time_ms: t1 };
    let first = step_spec(m, down);
    assert(buffer_insert(m.buffer, k).contains(k)) by {
        if !m.buffer.contains(k) {
            assert(m.buffer.push(k)[m.buffer.len() as int] == k);
        }
    }
    assert(first.0.buffer.contains(k));
}

/// Remap correctness in `Shifted`: for a keycode in the keymap, other than
/// the mod-tap key, a down followed by an up while `Shifted` produces the
/// mapped keycode's down followed by its up, each transition preserved, and
/// leaves the engine in `Shifted`.
pub proof fn lemma_shifted_remap(m: MachineModel, k: u16, t1: u64, t2: u64)
    requires
        m.phase is Shifted,
        m.keymap.dom().contains(k),
        k != m.fn_key,
    ensures
        ({
            let down = InputKey { code: k, transition: Transition::Down, time_ms: t1 };
            let up = InputKey { code: k, transition: Transition::Up, time_ms: t2 };
            let first = step_spec(m, down);
            let second = step_spec(first.0, up);
            &&& first.1 == seq![OutputKey::down(m.keymap[k])]
            &&& second.1 == seq![OutputKey::up(m.keymap[k])]
            &&& second.0.phase is Shifted
        }),
{
}

/// Pause idempotence: from `Idle`, two pause-key downs toggle the pause flag twice,
/// produce no output at all, and leave the engine exactly as it was.
pub proof fn lemma_pause_toggle_twice(m: MachineModel, t1: u64, t2: u64)
    requires
        m.phase is Idle,
    ensures
        ({
            let first = step_spec(
                m,
                InputKey { code: m.pause_key, transition: Transition::Down, time_ms: t1 },
            );
            let second = step_spec(
                first.0,
                InputKey { code: m.pause_key, transition: Transition::Down, time_ms: t2 },
            );
            &&& first.1 == Seq::<OutputKey>::empty()
            &&& second.1 == Seq::<OutputKey>::empty()
            &&& first.0.paused == !m.paused
            &&& second.0 == m
        }),
{
    let first = step_spec(
        m,
        InputKey { code: m.pause_key, transition: Transition::Down, time_ms: t1 },
    );
    let second = step_spec(
        first.0,
        InputKey { code: m.pause_key, transition: Transition::Down, time_ms: t2 },
    );
    assert(second.0 =~~= m);
}

/// While paused, the engine is inert: any event other than a pause-key down
/// passes through with identical keycode and transition — the mod-tap key
/// included, which in particular cannot open an ambiguity window — and the
/// engine does not change at all.
pub proof fn lemma_paused_passthrough(m: MachineModel, ev: InputKey)
    requires
        m.phase is Idle,
        m.paused,
        !(ev.code == m.pause_key && ev.transition is Down),
    ensures
        step_spec(m, ev).1 == seq![OutputKey { code: ev.code, transition: ev.transition }],
        step_spec(m, ev).0 == m,
{
}

/// Unmapped pass-through: a keycode that is neither in the keymap nor the
/// mod-tap key nor the pause key is forwarded with identical keycode and
/// transition while `Idle` or `Shifted`, and the engine does not change at
/// all.
pub proof fn lemma_unmapped_passthrough(m: MachineModel, ev: InputKey)
    requires
        m.phase is Idle || m.phase is Shifted,
        !m.keymap.dom().contains(ev.code),
        ev.code != m.fn_key,
        ev.code != m.pause_key,
    ensures
        step_spec(m, ev).1 == seq![OutputKey { code: ev.code, transition: ev.transition }],
        step_spec(m, ev).0 == m,
{
}

} // verus!
