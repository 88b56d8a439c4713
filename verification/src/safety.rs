//! The no-stuck-key guarantee: over a whole input stream, every synthesized
//! down the engine emits is eventually followed by a synthesized up of the
//! same keycode, so no key is left pressed downstream.
//!
//! The guarantee is proved for input streams that are well-formed (each
//! key's downs and ups alternate, and every key is released by the end) and
//! in which no key of the keymap is physically held at a moment an unpaused
//! idle engine sees the mod-tap key go down. Without that condition the
//! guarantee does not hold: a key of the keymap pressed before the mod-tap
//! key and released while the shifted layer is active has its release
//! remapped, so its own pass-through down is never closed. Keys outside the
//! keymap may be held across the window freely: their releases pass through
//! in every phase.

use vstd::prelude::*;
use crate::events::{InputKey, OutputKey, Transition};
use crate::model::{
    flush_pairs, lemma_buffer_insert_contains, lemma_buffer_remove_contains,
    lemma_step_preserves_wf, run_steps, shifted_step, step_spec, MachineModel, Phase,
};
use crate::keymap::lookup_spec;

verus! {

/// The set of keys physically held after one more input event.
pub open spec fn held_step(held: Set<u16>, ev: InputKey) -> Set<u16> {
    match ev.transition {
        Transition::Down => held.insert(ev.code),
        Transition::Up => held.remove(ev.code),
        Transition::Repeat => held,
    }
}

/// The set of keys physically held after a sequence of input events.
pub open spec fn held_after(held: Set<u16>, evs: Seq<InputKey>) -> Set<u16>
    decreases evs.len(),
{
    if evs.len() == 0 {
        held
    } else {
        held_after(held_step(held, evs[0]), evs.drop_first())
    }
}

/// A well-formed input stream relative to the keys already held: a key goes
/// down only while it is up, and comes up or repeats only while it is down.
pub open spec fn wf_inputs(held: Set<u16>, evs: Seq<InputKey>) -> bool
    decreases evs.len(),
{
    if evs.len() == 0 {
        true
    } else {
        &&& (evs[0].transition is Down ==> !held.contains(evs[0].code))
        &&& (evs[0].transition is Up ==> held.contains(evs[0].code))
        &&& (evs[0].transition is Repeat ==> held.contains(evs[0].code))
        &&& wf_inputs(held_step(held, evs[0]), evs.drop_first())
    }
}

/// No key is held.
pub open spec fn none_held(held: Set<u16>) -> bool {
    forall|c: u16| !held.contains(c)
}

/// No held key is in the keymap.
pub open spec fn held_clear_of_keymap(km: Map<u16, u16>, held: Set<u16>) -> bool {
    forall|c: u16| #[trigger] held.contains(c) ==> !km.dom().contains(c)
}

/// The input stream opens each ambiguity window clear of the keymap:
/// whenever an unpaused idle engine sees the mod-tap key go down, no key of
/// the keymap is physically held at that moment.
pub open spec fn opens_windows_clear_of_keymap(m: MachineModel, held: Set<u16>, evs: Seq<InputKey>)
    -> bool
    decreases evs.len(),
{
    if evs.len() == 0 {
        true
    } else {
        &&& (m.phase is Idle && !m.paused && evs[0].code == m.fn_key && evs[0].transition is Down)
            ==> held_clear_of_keymap(m.keymap, held)
        &&& opens_windows_clear_of_keymap(
            step_spec(m, evs[0]).0,
            held_step(held, evs[0]),
            evs.drop_first(),
        )
    }
}

/// The open downs after one more synthesized event: a down opens its
/// keycode, an up closes it, a repeat changes nothing.
pub open spec fn open_step(open: Set<u16>, out: OutputKey) -> Set<u16> {
    match out.transition {
        Transition::Down => open.insert(out.code),
        Transition::Up => open.remove(out.code),
        Transition::Repeat => open,
    }
}

/// The open downs after a sequence of synthesized events.
pub open spec fn open_after(open: Set<u16>, outs: Seq<OutputKey>) -> Set<u16>
    decreases outs.len(),
{
    if outs.len() == 0 {
        open
    } else {
        open_after(open_step(open, outs[0]), outs.drop_first())
    }
}

/// No down is open.
pub open spec fn none_open(open: Set<u16>) -> bool {
    forall|c: u16| !open.contains(c)
}

/// The down at position `i` is followed by an up of the same keycode.
pub open spec fn has_later_up(outs: Seq<OutputKey>, i: int) -> bool {
    exists|j: int| i < j < outs.len() && outs[j].code == outs[i].code && outs[j].transition is Up
}

/// Every down in the stream is followed by an up of the same keycode.
pub open spec fn downs_matched(outs: Seq<OutputKey>) -> bool {
    forall|i: int| #![trigger outs[i]]
        0 <= i < outs.len() && outs[i].transition is Down ==> has_later_up(outs, i)
}

/// How every open down is covered by the engine's state. While `Idle` every
/// open down is a physically held key, whose own release will pass through.
/// While `Deciding` the mod-tap key is held, every buffered key is another
/// held key, and every open down is a held unbuffered key outside the keymap
/// (its own release will be forwarded in every phase). While `Shifted` the
/// mod-tap key is held, and every open down is either buffered (the mod-tap
/// release closes it) or a held key outside the keymap.
pub open spec fn covered(m: MachineModel, held: Set<u16>, open: Set<u16>) -> bool {
    &&& (m.phase is Idle ==> forall|c: u16| #[trigger] open.contains(c) ==> held.contains(c))
    &&& (m.phase is Deciding ==> {
        &&& held.contains(m.fn_key)
        &&& forall|c: u16| #[trigger]
            m.buffer.contains(c) ==> (held.contains(c) && c != m.fn_key)
        &&& forall|c: u16| #[trigger]
            open.contains(c) ==> (held.contains(c) && !m.keymap.dom().contains(c)
                && c != m.fn_key && !m.buffer.contains(c))
    })
    &&& (m.phase is Shifted ==> {
        &&& held.contains(m.fn_key)
        &&& forall|c: u16| #[trigger]
            open.contains(c) ==> (m.buffer.contains(c) || (held.contains(c)
                && !m.keymap.dom().contains(c) && c != m.fn_key))
    })
}

/// Open downs over a concatenation: fold the first part, then the second.
proof fn lemma_open_after_append(open: Set<u16>, a: Seq<OutputKey>, b: Seq<OutputKey>)
    ensures
        open_after(open, a + b) == open_after(open_after(open, a), b),
    decreases a.len(),
{
    if a.len() == 0 {
        assert(a + b =~= b);
    } else {
        assert((a + b)[0] == a[0]);
        assert((a + b).drop_first() =~= a.drop_first() + b);
        lemma_open_after_append(open_step(open, a[0]), a.drop_first(), b);
    }
}

/// Open downs after one synthesized event.
proof fn lemma_open_after_single(open: Set<u16>, k: OutputKey)
    ensures
        open_after(open, seq![k]) == open_step(open, k),
{
    assert(seq![k][0] == k);
    assert(seq![k].drop_first() =~= Seq::<OutputKey>::empty());
    assert(open_after(open_step(open, k), Seq::<OutputKey>::empty()) == open_step(open, k));
    assert(open_after(open, seq![k]) == open_after(open_step(open, k), seq![k].drop_first()));
}

/// Open downs after appending one synthesized event at the end.
proof fn lemma_open_after_push(open: Set<u16>, outs: Seq<OutputKey>, k: OutputKey)
    ensures
        open_after(open, outs.push(k)) == open_step(open_after(open, outs), k),
{
    assert(outs.push(k) =~= outs + seq![k]);
    lemma_open_after_append(open, outs, seq![k]);
    lemma_open_after_single(open_after(open, outs), k);
}

/// A flush of down/up pairs opens nothing new.
proof fn lemma_open_after_flush(open: Set<u16>, buf: Seq<u16>, km: Map<u16, u16>)
    ensures
        forall|c: u16| #[trigger]
            open_after(open, flush_pairs(buf, km)).contains(c) ==> open.contains(c),
    decreases buf.len(),
{
    if buf.len() == 0 {
    } else {
        let m0 = lookup_spec(km, buf[0]);
        let pair = seq![OutputKey::down(m0), OutputKey::up(m0)];
        let rest = flush_pairs(buf.drop_first(), km);
        assert(flush_pairs(buf, km) == pair + rest);
        lemma_open_after_append(open, pair, rest);
        assert(pair[0] == OutputKey::down(m0));
        assert(pair.drop_first() =~= seq![OutputKey::up(m0)]);
        lemma_open_after_single(open.insert(m0), OutputKey::up(m0));
        assert(open_after(open, pair) == open.insert(m0).remove(m0));
        lemma_open_after_flush(open.insert(m0).remove(m0), buf.drop_first(), km);
    }
}

/// Open downs after replaying the buffer as downs: the previous opens plus
/// the buffered keycodes.
proof fn lemma_open_after_downs(open: Set<u16>, buf: Seq<u16>)
    ensures
        forall|c: u16| #[trigger]
            open_after(open, crate::model::downs_of(buf)).contains(c) <==> (open.contains(c)
                || buf.contains(c)),
    decreases buf.len(),
{
    let outs = crate::model::downs_of(buf);
    if buf.len() == 0 {
        assert(outs =~= Seq::<OutputKey>::empty());
        assert forall|c: u16| #[trigger]
            open_after(open, outs).contains(c) <==> (open.contains(c) || buf.contains(c)) by {
            assert(!buf.contains(c));
        }
    } else {
        assert(outs[0] == OutputKey::down(buf[0]));
        assert(outs.drop_first() =~= crate::model::downs_of(buf.drop_first()));
        lemma_open_after_downs(open.insert(buf[0]), buf.drop_first());
        assert(open_after(open, outs) == open_after(
            open.insert(buf[0]),
            crate::model::downs_of(buf.drop_first()),
        ));
        assert forall|c: u16| #[trigger]
            open_after(open, outs).contains(c) <==> (open.contains(c) || buf.contains(c)) by {
            if open_after(open, outs).contains(c) {
                if !open.insert(buf[0]).contains(c) && buf.drop_first().contains(c) {
                    let i = choose|i: int|
                        0 <= i < buf.drop_first().len() && buf.drop_first()[i] == c;
                    assert(buf[i + 1] == c);
                } else if open.insert(buf[0]).contains(c) && !open.contains(c) {
                    assert(c == buf[0]);
                    assert(buf.contains(c)) by {
                        assert(buf[0] == c);
                    }
                } else if buf.drop_first().contains(c) {
                    let i = choose|i: int|
                        0 <= i < buf.drop_first().len() && buf.drop_first()[i] == c;
                    assert(buf[i + 1] == c);
                }
            }
            if open.contains(c) || buf.contains(c) {
                if buf.contains(c) && c != buf[0] {
                    let i = choose|i: int| 0 <= i < buf.len() && buf[i] == c;
                    assert(i > 0);
                    assert(buf.drop_first()[i - 1] == c);
                    assert(buf.drop_first().contains(c));
                }
            }
        }
    }
}

/// Open downs after releasing the buffer as ups: the previous opens minus
/// the buffered keycodes.
proof fn lemma_open_after_ups(open: Set<u16>, buf: Seq<u16>)
    ensures
        forall|c: u16| #[trigger]
            open_after(open, crate::model::ups_of(buf)).contains(c) <==> (open.contains(c)
                && !buf.contains(c)),
    decreases buf.len(),
{
    let outs = crate::model::ups_of(buf);
    if buf.len() == 0 {
        assert(outs =~= Seq::<OutputKey>::empty());
        assert forall|c: u16| #[trigger]
            open_after(open, outs).contains(c) <==> (open.contains(c) && !buf.contains(c)) by {
            assert(!buf.contains(c));
        }
    } else {
        assert(outs[0] == OutputKey::up(buf[0]));
        assert(outs.drop_first() =~= crate::model::ups_of(buf.drop_first()));
        lemma_open_after_ups(open.remove(buf[0]), buf.drop_first());
        assert(open_after(open, outs) == open_after(
            open.remove(buf[0]),
            crate::model::ups_of(buf.drop_first()),
        ));
        assert forall|c: u16| #[trigger]
            open_after(open, outs).contains(c) <==> (open.contains(c) && !buf.contains(c)) by {
            if open_after(open, outs).contains(c) {
                assert(open.remove(buf[0]).contains(c) && !buf.drop_first().contains(c));
                assert(c != buf[0]);
                if buf.contains(c) {
                    let i = choose|i: int| 0 <= i < buf.len() && buf[i] == c;
                    assert(i > 0);
                    assert(buf.drop_first()[i - 1] == c);
                    assert(buf.drop_first().contains(c));
                }
            }
            if open.contains(c) && !buf.contains(c) {
                assert(c != buf[0]) by {
                    if c == buf[0] {
                        assert(buf[0] == c);
                        assert(buf.contains(c));
                    }
                }
                assert(!buf.drop_first().contains(c)) by {
                    if buf.drop_first().contains(c) {
                        let i = choose|i: int|
                            0 <= i < buf.drop_first().len() && buf.drop_first()[i] == c;
                        assert(buf[i + 1] == c);
                    }
                }
            }
        }
    }
}

/// One `Shifted` step keeps every open down covered.
proof fn lemma_shifted_step_covered(m: MachineModel, held: Set<u16>, open: Set<u16>, ev: InputKey)
    requires
        m.wf(),
        m.phase is Shifted,
        covered(m, held, open),
        ev.transition is Down ==> !held.contains(ev.code),
        ev.transition is Up ==> held.contains(ev.code),
        ev.transition is Repeat ==> held.contains(ev.code),
    ensures
        covered(shifted_step(m, ev).0, held_step(held, ev), open_after(open, shifted_step(m, ev).1)),
{
    let m2 = shifted_step(m, ev).0;
    let out = shifted_step(m, ev).1;
    let held2 = held_step(held, ev);
    let open2 = open_after(open, out);
    if ev.code == m.fn_key && ev.transition is Up {
        lemma_open_after_ups(open, m.buffer);
        assert forall|c: u16| #[trigger] open2.contains(c) implies held2.contains(c) by {
            assert(open.contains(c) && !m.buffer.contains(c));
        }
    } else if m.keymap.dom().contains(ev.code) {
        let mapped = m.keymap[ev.code];
        lemma_open_after_single(open, OutputKey { code: mapped, transition: ev.transition });
        if ev.code == m.fn_key {
            assert(ev.transition is Down ==> false);
        }
        match ev.transition {
            Transition::Down => {
                lemma_buffer_insert_contains(m.buffer, mapped);
                assert forall|c: u16| #[trigger]
                    open2.contains(c) implies (m2.buffer.contains(c) || (held2.contains(c)
                        && !m2.keymap.dom().contains(c) && c != m2.fn_key)) by {
                    if c == mapped {
                        assert(m2.buffer.contains(c));
                    }
                }
            },
            Transition::Up => {
                lemma_buffer_remove_contains(m.buffer, mapped);
                assert forall|c: u16| #[trigger]
                    open2.contains(c) implies (m2.buffer.contains(c) || (held2.contains(c)
                        && !m2.keymap.dom().contains(c) && c != m2.fn_key)) by {
                    assert(c != mapped);
                    assert(open.contains(c));
                    if m.buffer.contains(c) {
                        assert(m2.buffer.contains(c));
                    } else {
                        assert(c != ev.code);
                    }
                }
            },
            Transition::Repeat => {
            },
        }
    } else {
        lemma_open_after_single(open, OutputKey { code: ev.code, transition: ev.transition });
        if ev.code == m.fn_key {
            assert(ev.transition is Down ==> false);
        }
        assert forall|c: u16| #[trigger]
            open2.contains(c) implies (m2.buffer.contains(c) || (held2.contains(c)
                && !m2.keymap.dom().contains(c) && c != m2.fn_key)) by {
        }
    }
}

/// One engine step keeps every open down covered, for well-formed input that
/// opens ambiguity windows from rest.
proof fn lemma_step_covered(m: MachineModel, held: Set<u16>, open: Set<u16>, ev: InputKey)
    requires
        m.wf(),
        covered(m, held, open),
        ev.transition is Down ==> !held.contains(ev.code),
        ev.transition is Up ==> held.contains(ev.code),
        ev.transition is Repeat ==> held.contains(ev.code),
        (m.phase is Idle && !m.paused && ev.code == m.fn_key && ev.transition is Down)
            ==> held_clear_of_keymap(m.keymap, held),
    ensures
        covered(step_spec(m, ev).0, held_step(held, ev), open_after(open, step_spec(m, ev).1)),
{
    let m2 = step_spec(m, ev).0;
    let out = step_spec(m, ev).1;
    let held2 = held_step(held, ev);
    let open2 = open_after(open, out);
    match m.phase {
        Phase::Idle => {
            if ev.code == m.pause_key && ev.transition is Down {
                assert(open2 == open);
            } else if ev.code == m.fn_key && ev.transition is Down && !m.paused {
                assert(open2 == open);
                assert(m.buffer.len() == 0);
                assert forall|c: u16| #[trigger]
                    open2.contains(c) implies (held2.contains(c) && !m2.keymap.dom().contains(c)
                        && c != m2.fn_key && !m2.buffer.contains(c)) by {
                    assert(held.contains(c));
                    assert(!held.contains(m.fn_key));
                }
            } else {
                lemma_open_after_single(open, OutputKey { code: ev.code, transition: ev.transition });
                assert forall|c: u16| #[trigger] open2.contains(c) implies held2.contains(c) by {
                }
            }
        },
        Phase::Deciding => {
            if m.timed_out(ev) {
                let entered = MachineModel { phase: Phase::Shifted, buffer: Seq::empty(), ..m };
                let after = shifted_step(entered, ev);
                lemma_open_after_append(open, flush_pairs(m.buffer, m.keymap), after.1);
                lemma_open_after_flush(open, m.buffer, m.keymap);
                let open_mid = open_after(open, flush_pairs(m.buffer, m.keymap));
                assert(covered(entered, held, open_mid));
                lemma_shifted_step_covered(entered, held, open_mid, ev);
            } else {
                match ev.transition {
                    Transition::Down => {
                        assert(ev.code != m.fn_key);
                        lemma_buffer_insert_contains(m.buffer, ev.code);
                        assert forall|c: u16| #[trigger]
                            open2.contains(c) implies (held2.contains(c)
                                && !m2.keymap.dom().contains(c) && c != m2.fn_key
                                && !m2.buffer.contains(c)) by {
                            assert(c != ev.code);
                        }
                    },
                    Transition::Up => {
                        if ev.code == m.fn_key {
                            let pair = seq![OutputKey::down(m.fn_key), OutputKey::up(m.fn_key)];
                            assert(out == pair + crate::model::downs_of(m.buffer));
                            lemma_open_after_append(open, pair, crate::model::downs_of(m.buffer));
                            assert(pair[0] == OutputKey::down(m.fn_key));
                            assert(pair.drop_first() =~= seq![OutputKey::up(m.fn_key)]);
                            lemma_open_after_single(open.insert(m.fn_key), OutputKey::up(m.fn_key));
                            assert(open_after(open, pair) == open.insert(m.fn_key).remove(m.fn_key));
                            lemma_open_after_downs(
                                open.insert(m.fn_key).remove(m.fn_key),
                                m.buffer,
                            );
                            assert forall|c: u16| #[trigger]
                                open2.contains(c) implies held2.contains(c) by {
                                if open.insert(m.fn_key).remove(m.fn_key).contains(c) {
                                    assert(open.contains(c));
                                } else {
                                    assert(m.buffer.contains(c));
                                }
                            }
                        } else if m.buffer.contains(ev.code) {
                            let l = lookup_spec(m.keymap, ev.code);
                            let pair = seq![OutputKey::down(l), OutputKey::up(l)];
                            assert(out == pair);
                            assert(pair[0] == OutputKey::down(l));
                            assert(pair.drop_first() =~= seq![OutputKey::up(l)]);
                            lemma_open_after_single(open.insert(l), OutputKey::up(l));
                            assert(open2 == open.insert(l).remove(l));
                            lemma_buffer_remove_contains(m.buffer, ev.code);
                            assert forall|c: u16| #[trigger]
                                open2.contains(c) implies (m2.buffer.contains(c) || (
                                held2.contains(c) && !m2.keymap.dom().contains(c)
                                    && c != m2.fn_key)) by {
                                assert(open.contains(c));
                                assert(c != ev.code);
                            }
                        } else {
                            lemma_open_after_single(
                                open,
                                OutputKey { code: ev.code, transition: ev.transition },
                            );
                            assert forall|c: u16| #[trigger]
                                open2.contains(c) implies (held2.contains(c)
                                    && !m2.keymap.dom().contains(c) && c != m2.fn_key
                                    && !m2.buffer.contains(c)) by {
                                assert(open.contains(c));
                            }
                        }
                    },
                    Transition::Repeat => {
                    },
                }
            }
        },
        Phase::Shifted => {
            lemma_shifted_step_covered(m, held, open, ev);
        },
    }
}

/// Running a whole stream keeps every open down covered.
proof fn lemma_run_covered(m: MachineModel, held: Set<u16>, open: Set<u16>, evs: Seq<InputKey>)
    requires
        m.wf(),
        covered(m, held, open),
        wf_inputs(held, evs),
        opens_windows_clear_of_keymap(m, held, evs),
    ensures
        run_steps(m, evs).0.wf(),
        covered(run_steps(m, evs).0, held_after(held, evs), open_after(open, run_steps(m, evs).1)),
    decreases evs.len(),
{
    if evs.len() == 0 {
    } else {
        let ev = evs[0];
        lemma_step_covered(m, held, open, ev);
        lemma_step_preserves_wf(m, ev);
        lemma_run_covered(
            step_spec(m, ev).0,
            held_step(held, ev),
            open_after(open, step_spec(m, ev).1),
            evs.drop_first(),
        );
        lemma_open_after_append(
            open,
            step_spec(m, ev).1,
            run_steps(step_spec(m, ev).0, evs.drop_first()).1,
        );
    }
}

/// An open down is closed somewhere in any stream at whose end it is no
/// longer open; the position of the closing up is returned.
proof fn lemma_must_close(open: Set<u16>, outs: Seq<OutputKey>, c: u16) -> (j: int)
    requires
        open.contains(c),
        !open_after(open, outs).contains(c),
    ensures
        0 <= j < outs.len(),
        outs[j].code == c,
        outs[j].transition is Up,
    decreases outs.len(),
{
    if outs.len() == 0 {
        assert(false);
        0
    } else if outs[0].code == c && outs[0].transition is Up {
        0
    } else {
        assert(open_step(open, outs[0]).contains(c));
        let j0 = lemma_must_close(open_step(open, outs[0]), outs.drop_first(), c);
        assert(outs[j0 + 1] == outs.drop_first()[j0]);
        j0 + 1
    }
}

/// If nothing is open once the stream ends, every down in it was matched.
proof fn lemma_none_open_matched(outs: Seq<OutputKey>)
    requires
        none_open(open_after(Set::empty(), outs)),
    ensures
        downs_matched(outs),
{
    assert forall|i: int|
        0 <= i < outs.len() && outs[i].transition is Down implies has_later_up(outs, i) by {
        let c = outs[i].code;
        assert(outs.take(i + 1) =~= outs.take(i).push(outs[i]));
        lemma_open_after_push(Set::empty(), outs.take(i), outs[i]);
        let open_i = open_after(Set::empty(), outs.take(i + 1));
        assert(open_i.contains(c));
        assert(outs =~= outs.take(i + 1) + outs.skip(i + 1));
        lemma_open_after_append(Set::empty(), outs.take(i + 1), outs.skip(i + 1));
        assert(!open_after(open_i, outs.skip(i + 1)).contains(c));
        let j0 = lemma_must_close(open_i, outs.skip(i + 1), c);
        assert(outs[i + 1 + j0] == outs.skip(i + 1)[j0]);
        assert(i < i + 1 + j0 < outs.len());
        assert(outs[i + 1 + j0].code == c && outs[i + 1 + j0].transition is Up);
    }
}

/// No stuck key. Start the engine in `Idle`, from a moment when no key is
/// physically held. Feed it any well-formed input stream in which no key of
/// the keymap is held at a moment an ambiguity window opens, and whose keys
/// are all released by the end. Then every synthesized down the engine
/// emitted is followed, later in the emitted stream, by a synthesized up of
/// the same keycode.
pub proof fn lemma_no_stuck_key(m: MachineModel, evs: Seq<InputKey>)
    requires
        m.wf(),
        m.phase is Idle,
        wf_inputs(Set::empty(), evs),
        opens_windows_clear_of_keymap(m, Set::empty(), evs),
        none_held(held_after(Set::empty(), evs)),
    ensures
        downs_matched(run_steps(m, evs).1),
{
    lemma_run_covered(m, Set::empty(), Set::empty(), evs);
    let end = run_steps(m, evs).0;
    let outs = run_steps(m, evs).1;
    let held_end = held_after(Set::empty(), evs);
    let open_end = open_after(Set::empty(), outs);
    assert(none_open(open_end)) by {
        match end.phase {
            Phase::Idle => {
                assert forall|c: u16| !open_end.contains(c) by {
                    if open_end.contains(c) {
                        assert(held_end.contains(c));
                    }
                }
            },
            Phase::Deciding => {
                assert forall|c: u16| !open_end.contains(c) by {
                    if open_end.contains(c) {
                        assert(held_end.contains(c));
                    }
                }
            },
            Phase::Shifted => {
                assert(held_end.contains(end.fn_key));
                assert(false);
            },
        }
    }
    lemma_none_open_matched(outs);
}

} // verus!
