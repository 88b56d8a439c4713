//! The mathematical model of the disambiguation engine: its state, and the
//! pure transition function from state and event to next state and the
//! synthesized events to emit. The executable engine in `machine` is proved
//! to follow this model exactly, so every property shown of the model holds
//! of the running engine.
//!
//! Policy choices the model fixes:
//! - A `Deciding` event that arrives once the timeout has elapsed first
//!   flushes the buffer and enters `Shifted`, and is then itself handled
//!   under the `Shifted` rules in the same step.
//! - A `Down` for a keycode already buffered is not buffered again, so a
//!   keycode appears at most once in the buffer.
//! - `Repeat` events never change the buffer; while `Deciding` they are
//!   consumed without output.

use vstd::prelude::*;
use crate::events::{InputKey, OutputKey, Transition};
use crate::keymap::lookup_spec;

verus! {

/// Which of the three states the engine is in.
#[derive(Clone, Copy, Debug, PartialEq, Eq, Structural)]
pub enum Phase {
    /// No disambiguation pending: events pass through, the pause key toggles
    /// the pause gate, and an unpaused mod-tap press opens the ambiguity
    /// window.
    Idle,
    /// The mod-tap key is down and its role is still undetermined; other
    /// presses are buffered while the engine races the timeout.
    Deciding,
    /// The mod-tap key is held as a modifier: the remapping layer is active.
    Shifted,
}

/// The abstract state of the engine: the current phase, the moment the
/// ambiguity window opened (meaningful only while `Deciding`), the fixed
/// configuration, the buffer of held keycodes, and the pause gate.
#[verifier::ext_equal]
pub struct MachineModel {
    /// The current phase.
    pub phase: Phase,
    /// When the ambiguity window opened, on the input clock; meaningful only
    /// while `Deciding`.
    pub decide_start_ms: u64,
    /// The designated mod-tap keycode.
    pub fn_key: u16,
    /// The designated pause-toggle keycode.
    pub pause_key: u16,
    /// The length of the ambiguity window in milliseconds.
    pub timeout_ms: u64,
    /// The remapping table, active in the shifted layer.
    pub keymap: Map<u16, u16>,
    /// The keycodes currently held while disambiguation is pending or the
    /// shifted layer is active; each appears at most once.
    pub buffer: Seq<u16>,
    /// The pause gate: while set, everything except the pause key itself
    /// passes through unchanged.
    pub paused: bool,
}

impl MachineModel {
    /// The internal invariant: the buffer is empty whenever the engine is
    /// `Idle`, and no keycode appears in it twice.
    pub open spec fn wf(self) -> bool {
        &&& self.phase is Idle ==> self.buffer.len() == 0
        &&& no_dups(self.buffer)
    }

    /// The state of a freshly constructed engine: `Idle`, empty buffer, not
    /// paused.
    pub open spec fn init(fn_key: u16, pause_key: u16, timeout_ms: u64, keymap: Map<u16, u16>)
        -> MachineModel {
        MachineModel {
            phase: Phase::Idle,
            decide_start_ms: 0,
            fn_key,
            pause_key,
            timeout_ms,
            keymap,
            buffer: Seq::empty(),
            paused: false,
        }
    }

    /// Whether `ev` arrives at or after the end of the ambiguity window.
    pub open spec fn timed_out(self, ev: InputKey) -> bool {
        ev.time_ms >= self.decide_start_ms + self.timeout_ms
    }
}

/// No keycode appears twice.
pub open spec fn no_dups(buf: Seq<u16>) -> bool {
    forall|i: int, j: int| 0 <= i < j < buf.len() ==> buf[i] != buf[j]
}

/// The buffer after a `Down` of `code`: appended, unless already present.
pub open spec fn buffer_insert(buf: Seq<u16>, code: u16) -> Seq<u16> {
    if buf.contains(code) {
        buf
    } else {
        buf.push(code)
    }
}

/// The buffer after an `Up` of `code`: every occurrence of `code` removed.
pub open spec fn buffer_remove(buf: Seq<u16>, code: u16) -> Seq<u16>
    decreases buf.len(),
{
    if buf.len() == 0 {
        Seq::empty()
    } else if buf[0] == code {
        buffer_remove(buf.drop_first(), code)
    } else {
        seq![buf[0]] + buffer_remove(buf.drop_first(), code)
    }
}

/// A synthesized down immediately followed by a synthesized up for each
/// buffered keycode in order, each remapped through the keymap if present.
pub open spec fn flush_pairs(buf: Seq<u16>, km: Map<u16, u16>) -> Seq<OutputKey>
    decreases buf.len(),
{
    if buf.len() == 0 {
        Seq::empty()
    } else {
        seq![
            OutputKey::down(lookup_spec(km, buf[0])),
            OutputKey::up(lookup_spec(km, buf[0])),
        ] + flush_pairs(buf.drop_first(), km)
    }
}

/// A synthesized down for each buffered keycode, unmapped, in order.
pub open spec fn downs_of(buf: Seq<u16>) -> Seq<OutputKey> {
    buf.map_values(|c: u16| OutputKey::down(c))
}

/// A synthesized up for each buffered keycode, unmapped, in order.
pub open spec fn ups_of(buf: Seq<u16>) -> Seq<OutputKey> {
    buf.map_values(|c: u16| OutputKey::up(c))
}

/// One step of the engine while `Idle`. A pause-key down toggles the pause flag
/// and is consumed; an unpaused mod-tap down opens the ambiguity window and
/// is consumed; everything else, the paused mod-tap key included, passes
/// through unchanged.
pub open spec fn idle_step(m: MachineModel, ev: InputKey) -> (MachineModel, Seq<OutputKey>) {
    if ev.code == m.pause_key && ev.transition is Down {
        (MachineModel { paused: !m.paused, ..m }, Seq::empty())
    } else if ev.code == m.fn_key && ev.transition is Down && !m.paused {
        (MachineModel { phase: Phase::Deciding, decide_start_ms: ev.time_ms, ..m }, Seq::empty())
    } else {
        (m, seq![OutputKey { code: ev.code, transition: ev.transition }])
    }
}

/// One step of the engine while `Shifted`. A mod-tap up releases everything
/// still buffered and returns to `Idle`; a keycode in the keymap is remapped
/// (its down and up maintain the buffer); everything else passes through
/// unchanged.
pub open spec fn shifted_step(m: MachineModel, ev: InputKey) -> (MachineModel, Seq<OutputKey>) {
    if ev.code == m.fn_key && ev.transition is Up {
        (MachineModel { phase: Phase::Idle, buffer: Seq::empty(), ..m }, ups_of(m.buffer))
    } else if m.keymap.dom().contains(ev.code) {
        let mapped = m.keymap[ev.code];
        let buf = match ev.transition {
            Transition::Down => buffer_insert(m.buffer, mapped),
            Transition::Up => buffer_remove(m.buffer, mapped),
            Transition::Repeat => m.buffer,
        };
        (
            MachineModel { buffer: buf, ..m },
            seq![OutputKey { code: mapped, transition: ev.transition }],
        )
    } else {
        (m, seq![OutputKey { code: ev.code, transition: ev.transition }])
    }
}

/// One step of the engine while `Deciding`. The timeout is checked when the
/// next event arrives; there is no separate timer. Once it has elapsed the
/// buffer is flushed as down/up pairs, the engine enters `Shifted`, and the
/// triggering event is handled there in the same step. Before the timeout, a
/// down is buffered; a mod-tap up resolves the window as a tap (the mod-tap
/// pair is emitted, buffered keys are replayed as downs, and the engine
/// returns to `Idle`); an up of a buffered key resolves it as a hold (the
/// remapped pair is emitted and the engine enters `Shifted`); an up of an
/// unbuffered key passes through; a repeat is consumed.
pub open spec fn deciding_step(m: MachineModel, ev: InputKey) -> (MachineModel, Seq<OutputKey>) {
    if m.timed_out(ev) {
        let flushed = flush_pairs(m.buffer, m.keymap);
        let shifted = MachineModel { phase: Phase::Shifted, buffer: Seq::empty(), ..m };
        let after = shifted_step(shifted, ev);
        (after.0, flushed + after.1)
    } else {
        match ev.transition {
            Transition::Down => (
                MachineModel { buffer: buffer_insert(m.buffer, ev.code), ..m },
                Seq::empty(),
            ),
            Transition::Up => {
                if ev.code == m.fn_key {
                    (
                        MachineModel { phase: Phase::Idle, buffer: Seq::empty(), ..m },
                        seq![OutputKey::down(m.fn_key), OutputKey::up(m.fn_key)] + downs_of(
                            m.buffer,
                        ),
                    )
                } else if m.buffer.contains(ev.code) {
                    (
                        MachineModel {
                            phase: Phase::Shifted,
                            buffer: buffer_remove(m.buffer, ev.code),
                            ..m
                        },
                        seq![
                            OutputKey::down(lookup_spec(m.keymap, ev.code)),
                            OutputKey::up(lookup_spec(m.keymap, ev.code)),
                        ],
                    )
                } else {
                    (m, seq![OutputKey { code: ev.code, transition: ev.transition }])
                }
            },
            Transition::Repeat => (m, Seq::empty()),
        }
    }
}

/// One step of the engine: dispatch on the current phase.
pub open spec fn step_spec(m: MachineModel, ev: InputKey) -> (MachineModel, Seq<OutputKey>) {
    match m.phase {
        Phase::Idle => idle_step(m, ev),
        Phase::Deciding => deciding_step(m, ev),
        Phase::Shifted => shifted_step(m, ev),
    }
}

/// Running the engine over a whole sequence of input events: the final
/// state, and everything emitted along the way, in order.
pub open spec fn run_steps(m: MachineModel, evs: Seq<InputKey>) -> (MachineModel, Seq<OutputKey>)
    decreases evs.len(),
{
    if evs.len() == 0 {
        (m, Seq::empty())
    } else {
        let first = step_spec(m, evs[0]);
        let rest = run_steps(first.0, evs.drop_first());
        (rest.0, first.1 + rest.1)
    }
}

/// Running one more event after a sequence: step the final state once and
/// append what the step emitted.
pub proof fn lemma_run_steps_push(m: MachineModel, evs: Seq<InputKey>, ev: InputKey)
    ensures
        ({
            let before = run_steps(m, evs);
            let last = step_spec(before.0, ev);
            &&& run_steps(m, evs.push(ev)).0 == last.0
            &&& run_steps(m, evs.push(ev)).1 == before.1 + last.1
        }),
    decreases evs.len(),
{
    let before = run_steps(m, evs);
    let last = step_spec(before.0, ev);
    if evs.len() == 0 {
        assert(evs.push(ev)[0] == ev);
        assert(evs.push(ev).drop_first() =~= Seq::<InputKey>::empty());
        assert(run_steps(step_spec(m, ev).0, evs.push(ev).drop_first()).1 =~= Seq::<
            OutputKey,
        >::empty());
        assert(run_steps(m, evs.push(ev)).1 =~= before.1 + last.1);
    } else {
        assert(evs.push(ev)[0] == evs[0]);
        assert(evs.push(ev).drop_first() =~= evs.drop_first().push(ev));
        lemma_run_steps_push(step_spec(m, evs[0]).0, evs.drop_first(), ev);
        vstd::seq_lib::lemma_concat_associative(
            step_spec(m, evs[0]).1,
            run_steps(step_spec(m, evs[0]).0, evs.drop_first()).1,
            last.1,
        );
        assert(run_steps(m, evs.push(ev)).1 =~= before.1 + last.1);
    }
}

/// Removing a keycode removes nothing else: what is left was there before,
/// and `code` is gone.
pub proof fn lemma_buffer_remove_membership(buf: Seq<u16>, code: u16)
    ensures
        forall|x: u16| #[trigger] buffer_remove(buf, code).contains(x) ==> buf.contains(x),
        !buffer_remove(buf, code).contains(code),
    decreases buf.len(),
{
    if buf.len() == 0 {
    } else {
        lemma_buffer_remove_membership(buf.drop_first(), code);
        assert forall|x: u16| #[trigger] buffer_remove(buf, code).contains(x) implies buf.contains(
            x,
        ) by {
            if buf[0] != code {
                let rest = buffer_remove(buf.drop_first(), code);
                let whole = seq![buf[0]] + rest;
                if whole.contains(x) {
                    let i = choose|i: int| 0 <= i < whole.len() && whole[i] == x;
                    if i == 0 {
                        assert(buf.contains(x)) by {
                            assert(buf[0] == x);
                        }
                    } else {
                        assert(rest[i - 1] == x);
                        assert(buffer_remove(buf.drop_first(), code).contains(x));
                        assert(buf.drop_first().contains(x));
                        let j = choose|j: int|
                            0 <= j < buf.drop_first().len() && buf.drop_first()[j] == x;
                        assert(buf[j + 1] == x);
                    }
                }
            } else {
                if buffer_remove(buf, code).contains(x) {
                    assert(buffer_remove(buf, code) == buffer_remove(buf.drop_first(), code));
                    assert(buffer_remove(buf.drop_first(), code).contains(x));
                    assert(buf.drop_first().contains(x));
                    let j = choose|j: int|
                        0 <= j < buf.drop_first().len() && buf.drop_first()[j] == x;
                    assert(buf[j + 1] == x);
                }
            }
        }
    }
}

/// What the buffer holds after an insert: what it held, and the new keycode.
pub proof fn lemma_buffer_insert_contains(buf: Seq<u16>, code: u16)
    ensures
        forall|x: u16|
            #[trigger] buffer_insert(buf, code).contains(x) <==> (buf.contains(x) || x == code),
{
    if !buf.contains(code) {
        assert forall|x: u16| #[trigger]
            buf.push(code).contains(x) <==> (buf.contains(x) || x == code) by {
            if buf.contains(x) {
                let i = choose|i: int| 0 <= i < buf.len() && buf[i] == x;
                assert(buf.push(code)[i] == x);
            }
            if x == code {
                assert(buf.push(code)[buf.len() as int] == x);
            }
            if buf.push(code).contains(x) {
                let i = choose|i: int| 0 <= i < buf.push(code).len() && buf.push(code)[i] == x;
                if i < buf.len() {
                    assert(buf[i] == x);
                }
            }
        }
    }
}

/// What the buffer holds after a removal: what it held, except the removed
/// keycode.
pub proof fn lemma_buffer_remove_contains(buf: Seq<u16>, code: u16)
    ensures
        forall|x: u16|
            #[trigger] buffer_remove(buf, code).contains(x) <==> (buf.contains(x) && x != code),
    decreases buf.len(),
{
    if buf.len() == 0 {
        assert forall|x: u16| #[trigger]
            buffer_remove(buf, code).contains(x) <==> (buf.contains(x) && x != code) by {
            assert(!buffer_remove(buf, code).contains(x));
            assert(!buf.contains(x));
        }
    } else {
        lemma_buffer_remove_contains(buf.drop_first(), code);
        assert forall|x: u16| #[trigger]
            buffer_remove(buf, code).contains(x) <==> (buf.contains(x) && x != code) by {
            let rest = buffer_remove(buf.drop_first(), code);
            if buf[0] == code {
                assert(buffer_remove(buf, code) == rest);
                if rest.contains(x) {
                    assert(buf.drop_first().contains(x));
                    let i = choose|i: int|
                        0 <= i < buf.drop_first().len() && buf.drop_first()[i] == x;
                    assert(buf[i + 1] == x);
                }
                if buf.contains(x) && x != code {
                    let i = choose|i: int| 0 <= i < buf.len() && buf[i] == x;
                    assert(i > 0);
                    assert(buf.drop_first()[i - 1] == x);
                    assert(buf.drop_first().contains(x));
                }
            } else {
                let whole = seq![buf[0]] + rest;
                assert(buffer_remove(buf, code) == whole);
                if whole.contains(x) {
                    let i = choose|i: int| 0 <= i < whole.len() && whole[i] == x;
                    if i == 0 {
                        assert(x == buf[0]);
                        assert(buf.contains(x)) by {
                            assert(buf[0] == x);
                        }
                    } else {
                        assert(rest[i - 1] == x);
                        assert(rest.contains(x));
                        assert(buf.drop_first().contains(x));
                        let j = choose|j: int|
                            0 <= j < buf.drop_first().len() && buf.drop_first()[j] == x;
                        assert(buf[j + 1] == x);
                    }
                }
                if buf.contains(x) && x != code {
                    let i = choose|i: int| 0 <= i < buf.len() && buf[i] == x;
                    if i == 0 {
                        assert(whole[0] == x);
                        assert(whole.contains(x));
                    } else {
                        assert(buf.drop_first()[i - 1] == x);
                        assert(buf.drop_first().contains(x));
                        assert(rest.contains(x));
                        let j = choose|j: int| 0 <= j < rest.len() && rest[j] == x;
                        assert(whole[j + 1] == x);
                        assert(whole.contains(x));
                    }
                }
            }
        }
    }
}

/// Removing a keycode keeps the buffer duplicate-free.
pub proof fn lemma_buffer_remove_no_dups(buf: Seq<u16>, code: u16)
    requires
        no_dups(buf),
    ensures
        no_dups(buffer_remove(buf, code)),
    decreases buf.len(),
{
    if buf.len() == 0 {
    } else {
        assert(no_dups(buf.drop_first())) by {
            assert forall|i: int, j: int|
                0 <= i < j < buf.drop_first().len() implies buf.drop_first()[i]
                != buf.drop_first()[j] by {
                assert(buf[i + 1] != buf[j + 1]);
            }
        }
        lemma_buffer_remove_no_dups(buf.drop_first(), code);
        if buf[0] != code {
            lemma_buffer_remove_membership(buf.drop_first(), code);
            let rest = buffer_remove(buf.drop_first(), code);
            let whole = seq![buf[0]] + rest;
            assert forall|i: int, j: int| 0 <= i < j < whole.len() implies whole[i] != whole[j] by {
                if i == 0 {
                    assert(whole[j] == rest[j - 1]);
                    assert(rest.contains(rest[j - 1]));
                    assert(buf.drop_first().contains(whole[j]));
                    if whole[0] == whole[j] {
                        let k = choose|k: int|
                            0 <= k < buf.drop_first().len() && buf.drop_first()[k] == whole[j];
                        assert(buf[k + 1] == buf[0]);
                    }
                } else {
                    assert(whole[i] == rest[i - 1] && whole[j] == rest[j - 1]);
                }
            }
        }
    }
}

/// Inserting keeps the buffer duplicate-free.
pub proof fn lemma_buffer_insert_no_dups(buf: Seq<u16>, code: u16)
    requires
        no_dups(buf),
    ensures
        no_dups(buffer_insert(buf, code)),
{
    if !buf.contains(code) {
        let pushed = buf.push(code);
        assert forall|i: int, j: int| 0 <= i < j < pushed.len() implies pushed[i] != pushed[j] by {
            if j == pushed.len() - 1 {
                assert(pushed[i] == buf[i]);
                assert(buf.contains(buf[i]));
            }
        }
    }
}

/// Removing from a buffer with one more keycode at the end: the removal of
/// the front part, then the new keycode unless it is the one removed.
pub proof fn lemma_buffer_remove_push(buf: Seq<u16>, x: u16, code: u16)
    ensures
        buffer_remove(buf.push(x), code) == buffer_remove(buf, code) + (if x == code {
            Seq::<u16>::empty()
        } else {
            seq![x]
        }),
    decreases buf.len(),
{
    let tail = if x == code {
        Seq::<u16>::empty()
    } else {
        seq![x]
    };
    if buf.len() == 0 {
        assert(buf.push(x).len() == 1);
        assert(buf.push(x)[0] == x);
        assert(buf.push(x).drop_first() =~= Seq::<u16>::empty());
        if x == code {
            assert(buffer_remove(buf.push(x), code) == buffer_remove(
                buf.push(x).drop_first(),
                code,
            ));
        } else {
            assert(buffer_remove(buf.push(x), code) == seq![x] + buffer_remove(
                buf.push(x).drop_first(),
                code,
            ));
        }
        assert(buffer_remove(buf.push(x), code) =~= buffer_remove(buf, code) + tail);
    } else {
        assert(buf.push(x)[0] == buf[0]);
        assert(buf.push(x).drop_first() =~= buf.drop_first().push(x));
        lemma_buffer_remove_push(buf.drop_first(), x, code);
        if buf[0] == code {
            assert(buffer_remove(buf.push(x), code) == buffer_remove(
                buf.push(x).drop_first(),
                code,
            ));
            assert(buffer_remove(buf, code) == buffer_remove(buf.drop_first(), code));
            assert(buffer_remove(buf.push(x), code) =~= buffer_remove(buf, code) + tail);
        } else {
            assert(buffer_remove(buf.push(x), code) == seq![buf[0]] + buffer_remove(
                buf.push(x).drop_first(),
                code,
            ));
            assert(buffer_remove(buf, code) == seq![buf[0]] + buffer_remove(
                buf.drop_first(),
                code,
            ));
            assert(buffer_remove(buf.push(x), code) =~= buffer_remove(buf, code) + tail);
        }
    }
}

/// Flushing a buffer with one more keycode at the end: the flush of the
/// front part, then the new keycode's remapped down/up pair.
pub proof fn lemma_flush_pairs_push(buf: Seq<u16>, x: u16, km: Map<u16, u16>)
    ensures
        flush_pairs(buf.push(x), km) == flush_pairs(buf, km) + seq![
            OutputKey::down(lookup_spec(km, x)),
            OutputKey::up(lookup_spec(km, x)),
        ],
    decreases buf.len(),
{
    let pair = seq![OutputKey::down(lookup_spec(km, x)), OutputKey::up(lookup_spec(km, x))];
    if buf.len() == 0 {
        assert(buf.push(x).len() == 1);
        assert(buf.push(x)[0] == x);
        assert(buf.push(x).drop_first() =~= Seq::<u16>::empty());
        assert(flush_pairs(buf.push(x), km) == pair + flush_pairs(
            buf.push(x).drop_first(),
            km,
        ));
        assert(flush_pairs(buf.push(x), km) =~= flush_pairs(buf, km) + pair);
    } else {
        assert(buf.push(x)[0] == buf[0]);
        assert(buf.push(x).drop_first() =~= buf.drop_first().push(x));
        lemma_flush_pairs_push(buf.drop_first(), x, km);
        assert(flush_pairs(buf.push(x), km) == seq![
            OutputKey::down(lookup_spec(km, buf[0])),
            OutputKey::up(lookup_spec(km, buf[0])),
        ] + flush_pairs(buf.push(x).drop_first(), km));
        assert(flush_pairs(buf, km) == seq![
            OutputKey::down(lookup_spec(km, buf[0])),
            OutputKey::up(lookup_spec(km, buf[0])),
        ] + flush_pairs(buf.drop_first(), km));
        vstd::seq_lib::lemma_concat_associative(
            seq![OutputKey::down(lookup_spec(km, buf[0])), OutputKey::up(lookup_spec(km, buf[0]))],
            flush_pairs(buf.drop_first(), km),
            pair,
        );
        assert(flush_pairs(buf.push(x), km) =~= flush_pairs(buf, km) + pair);
    }
}

/// A step from a well-formed state ends in a well-formed state.
pub proof fn lemma_step_preserves_wf(m: MachineModel, ev: InputKey)
    requires
        m.wf(),
    ensures
        step_spec(m, ev).0.wf(),
{
    lemma_buffer_insert_no_dups(m.buffer, ev.code);
    lemma_buffer_remove_no_dups(m.buffer, ev.code);
    if m.keymap.dom().contains(ev.code) {
        lemma_buffer_insert_no_dups(m.buffer, m.keymap[ev.code]);
        lemma_buffer_remove_no_dups(m.buffer, m.keymap[ev.code]);
    }
    if m.phase is Deciding && m.timed_out(ev) {
        let shifted = MachineModel { phase: Phase::Shifted, buffer: Seq::empty(), ..m };
        if shifted.keymap.dom().contains(ev.code) {
            lemma_buffer_insert_no_dups(shifted.buffer, shifted.keymap[ev.code]);
            lemma_buffer_remove_no_dups(shifted.buffer, shifted.keymap[ev.code]);
        }
    }
}

} // verus!
