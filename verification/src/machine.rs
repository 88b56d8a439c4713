//! The executable disambiguation engine. Every step is proved to follow the
//! pure transition function of `model` exactly: the caller hands in one
//! filtered input event together with its arrival time, and receives the
//! synthesized events to pass on to the output device, in order.

use vstd::prelude::*;
use crate::config::{keymap_from_names, key_code_of, names_to_map, parse_key_code, ConfigError};
use crate::events::{InputKey, OutputKey, Transition};
use crate::keymap::Keymap;
use crate::model::{
    buffer_insert, buffer_remove, deciding_step, downs_of, flush_pairs, idle_step,
    lemma_buffer_remove_push, lemma_flush_pairs_push, lemma_run_steps_push,
    lemma_step_preserves_wf, run_steps, shifted_step, step_spec, ups_of, MachineModel, Phase,
};

verus! {

/// The running engine: the three-state machine, its fixed configuration,
/// the buffer of held keycodes, and the pause gate.
pub struct StateMachine {
    phase: Phase,
    decide_start_ms: u64,
    fn_key: u16,
    pause_key: u16,
    timeout_ms: u64,
    keymap: Keymap,
    buffer: Vec<u16>,
    paused: bool,
}

impl View for StateMachine {
    type V = MachineModel;

    closed spec fn view(&self) -> MachineModel {
        MachineModel {
            phase: self.phase,
            decide_start_ms: self.decide_start_ms,
            fn_key: self.fn_key,
            pause_key: self.pause_key,
            timeout_ms: self.timeout_ms,
            keymap: self.keymap@,
            buffer: self.buffer@,
            paused: self.paused,
        }
    }
}

impl StateMachine {
    /// A fresh engine: `Idle`, nothing buffered, not paused.
    pub fn new(fn_key: u16, pause_key: u16, timeout_ms: u64, keymap: Keymap) -> (m: StateMachine)
        ensures
            m@ == MachineModel::init(fn_key, pause_key, timeout_ms, keymap@),
            m@.wf(),
    {
        let m = StateMachine {
            phase: Phase::Idle,
            decide_start_ms: 0,
            fn_key,
            pause_key,
            timeout_ms,
            keymap,
            buffer: Vec::new(),
            paused: false,
        };
        proof {
            assert(m@ =~~= MachineModel::init(fn_key, pause_key, timeout_ms, keymap@));
        }
        m
    }

    /// Builds an engine from configured key names, resolving every name
    /// through evdev's key-name table. The mod-tap name is checked first,
    /// then the pause-toggle name, then the keymap pairs in order.
    pub fn from_names(
        fn_key_name: &str,
        pause_key_name: &str,
        timeout_ms: u64,
        keymap_names: &Vec<(String, String)>,
    ) -> (r: Result<StateMachine, ConfigError>)
        ensures
            match key_code_of(fn_key_name@) {
                None => r == Err::<StateMachine, ConfigError>(ConfigError::BadFnKey),
                Some(f) => match key_code_of(pause_key_name@) {
                    None => r == Err::<StateMachine, ConfigError>(ConfigError::BadPauseKey),
                    Some(p) => match names_to_map(keymap_names@) {
                        Err(e) => r == Err::<StateMachine, ConfigError>(e),
                        Ok(km) => r matches Ok(m) && m@ == MachineModel::init(
                            f,
                            p,
                            timeout_ms,
                            km,
                        ),
                    },
                },
            },
            r matches Ok(m) ==> m@.wf(),
    {
        let fn_key = match parse_key_code(fn_key_name) {
            Some(f) => f,
            None => {
                return Err(ConfigError::BadFnKey);
            },
        };
        let pause_key = match parse_key_code(pause_key_name) {
            Some(p) => p,
            None => {
                return Err(ConfigError::BadPauseKey);
            },
        };
        let keymap = match keymap_from_names(keymap_names) {
            Ok(km) => km,
            Err(e) => {
                return Err(e);
            },
        };
        Ok(StateMachine::new(fn_key, pause_key, timeout_ms, keymap))
    }

    /// The phase the engine is in.
    pub fn current_phase(&self) -> (p: Phase)
        ensures
            p == self@.phase,
    {
        self.phase
    }

    /// Whether the pause gate is set.
    pub fn is_paused(&self) -> (b: bool)
        ensures
            b == self@.paused,
    {
        self.paused
    }

    /// The configured mod-tap keycode.
    pub fn fn_key(&self) -> (k: u16)
        ensures
            k == self@.fn_key,
    {
        self.fn_key
    }

    /// The configured pause-toggle keycode.
    pub fn pause_key(&self) -> (k: u16)
        ensures
            k == self@.pause_key,
    {
        self.pause_key
    }

    /// The configured ambiguity window in milliseconds.
    pub fn timeout_ms(&self) -> (t: u64)
        ensures
            t == self@.timeout_ms,
    {
        self.timeout_ms
    }

    /// Feeds one input event to the engine and returns the synthesized
    /// events to emit, in order. The step is exactly `step_spec` on the
    /// engine's model.
    pub fn run(&mut self, ev: InputKey) -> (out: Vec<OutputKey>)
        requires
            old(self)@.wf(),
        ensures
            final(self)@ == step_spec(old(self)@, ev).0,
            out@ == step_spec(old(self)@, ev).1,
            final(self)@.wf(),
    {
        proof {
            lemma_step_preserves_wf(old(self)@, ev);
        }
        match self.phase {
            Phase::Idle => self.handle_idle(ev),
            Phase::Deciding => self.handle_deciding(ev),
            Phase::Shifted => self.handle_shifted(ev),
        }
    }

    /// Feeds a whole sequence of input events to the engine and returns
    /// everything emitted along the way, in order: exactly `run_steps` on
    /// the engine's model.
    pub fn run_all(&mut self, evs: &Vec<InputKey>) -> (out: Vec<OutputKey>)
        requires
            old(self)@.wf(),
        ensures
            final(self)@ == run_steps(old(self)@, evs@).0,
            out@ == run_steps(old(self)@, evs@).1,
            final(self)@.wf(),
    {
        let mut out: Vec<OutputKey> = Vec::new();
        let mut i: usize = 0;
        proof {
            assert(evs@.take(0) =~= Seq::<InputKey>::empty());
        }
        while i < evs.len()
            invariant
                i <= evs.len(),
                self@.wf(),
                self@ == run_steps(old(self)@, evs@.take(i as int)).0,
                out@ == run_steps(old(self)@, evs@.take(i as int)).1,
            decreases evs.len() - i,
        {
            let ghost pre = evs@.take(i as int);
            let mut step_out = self.run(evs[i]);
            out.append(&mut step_out);
            proof {
                assert(evs@.take(i + 1) =~= pre.push(evs@[i as int]));
                lemma_run_steps_push(old(self)@, pre, evs@[i as int]);
            }
            i = i + 1;
        }
        proof {
            assert(evs@.take(evs@.len() as int) =~= evs@);
        }
        out
    }

    /// One step while `Idle`.
    fn handle_idle(&mut self, ev: InputKey) -> (out: Vec<OutputKey>)
        requires
            old(self)@.phase is Idle,
        ensures
            final(self)@ == idle_step(old(self)@, ev).0,
            out@ == idle_step(old(self)@, ev).1,
    {
        if ev.code == self.pause_key && ev.transition == Transition::Down {
            self.paused = !self.paused;
            let out: Vec<OutputKey> = Vec::new();
            proof {
                assert(self@ =~~= idle_step(old(self)@, ev).0);
                assert(out@ =~~= idle_step(old(self)@, ev).1);
            }
            out
        } else if ev.code == self.fn_key && ev.transition == Transition::Down && !self.paused {
            self.decide_start_ms = ev.time_ms;
            self.phase = Phase::Deciding;
            let out: Vec<OutputKey> = Vec::new();
            proof {
                assert(self@ =~~= idle_step(old(self)@, ev).0);
                assert(out@ =~~= idle_step(old(self)@, ev).1);
            }
            out
        } else {
            let mut out: Vec<OutputKey> = Vec::new();
            out.push(OutputKey { code: ev.code, transition: ev.transition });
            proof {
                assert(self@ =~~= idle_step(old(self)@, ev).0);
                assert(out@ =~~= idle_step(old(self)@, ev).1);
            }
            out
        }
    }

    /// One step while `Deciding`.
    fn handle_deciding(&mut self, ev: InputKey) -> (out: Vec<OutputKey>)
        requires
            old(self)@.phase is Deciding,
        ensures
            final(self)@ == deciding_step(old(self)@, ev).0,
            out@ == deciding_step(old(self)@, ev).1,
    {
        if ev.time_ms >= self.decide_start_ms && ev.time_ms - self.decide_start_ms
            >= self.timeout_ms {
            let mut out = flush_exec(&self.buffer, &self.keymap);
            self.buffer = Vec::new();
            self.phase = Phase::Shifted;
            let ghost mid = self@;
            proof {
                assert(mid =~~= (MachineModel {
                    phase: Phase::Shifted,
                    buffer: Seq::empty(),
                    ..old(self)@
                }));
            }
            let mut rest = self.handle_shifted(ev);
            out.append(&mut rest);
            proof {
                assert(out@ =~~= deciding_step(old(self)@, ev).1);
            }
            out
        } else {
            proof {
                assert(!old(self)@.timed_out(ev));
            }
            match ev.transition {
                Transition::Down => {
                    push_unique(&mut self.buffer, ev.code);
                    let out: Vec<OutputKey> = Vec::new();
                    proof {
                        assert(self@ =~~= deciding_step(old(self)@, ev).0);
                        assert(out@ =~~= deciding_step(old(self)@, ev).1);
                    }
                    out
                },
                Transition::Up => {
                    if ev.code == self.fn_key {
                        let mut out: Vec<OutputKey> = Vec::new();
                        out.push(OutputKey { code: self.fn_key, transition: Transition::Down });
                        out.push(OutputKey { code: self.fn_key, transition: Transition::Up });
                        let mut downs = downs_exec(&self.buffer);
                        out.append(&mut downs);
                        self.buffer = Vec::new();
                        self.phase = Phase::Idle;
                        proof {
                            assert(self@ =~~= deciding_step(old(self)@, ev).0);
                            assert(out@ =~~= deciding_step(old(self)@, ev).1);
                        }
                        out
                    } else if buffer_contains(&self.buffer, ev.code) {
                        remove_code_exec(&mut self.buffer, ev.code);
                        self.phase = Phase::Shifted;
                        let mapped = self.keymap.lookup(ev.code);
                        let mut out: Vec<OutputKey> = Vec::new();
                        out.push(OutputKey { code: mapped, transition: Transition::Down });
                        out.push(OutputKey { code: mapped, transition: Transition::Up });
                        proof {
                            assert(self@ =~~= deciding_step(old(self)@, ev).0);
                            assert(out@ =~~= deciding_step(old(self)@, ev).1);
                        }
                        out
                    } else {
                        let mut out: Vec<OutputKey> = Vec::new();
                        out.push(OutputKey { code: ev.code, transition: ev.transition });
                        proof {
                            assert(self@ =~~= deciding_step(old(self)@, ev).0);
                            assert(out@ =~~= deciding_step(old(self)@, ev).1);
                        }
                        out
                    }
                },
                Transition::Repeat => {
                    let out: Vec<OutputKey> = Vec::new();
                    proof {
                        assert(self@ =~~= deciding_step(old(self)@, ev).0);
                        assert(out@ =~~= deciding_step(old(self)@, ev).1);
                    }
                    out
                },
            }
        }
    }

    /// One step while `Shifted`.
    fn handle_shifted(&mut self, ev: InputKey) -> (out: Vec<OutputKey>)
        requires
            old(self)@.phase is Shifted,
        ensures
            final(self)@ == shifted_step(old(self)@, ev).0,
            out@ == shifted_step(old(self)@, ev).1,
    {
        if ev.code == self.fn_key && ev.transition == Transition::Up {
            let out = ups_exec(&self.buffer);
            self.buffer = Vec::new();
            self.phase = Phase::Idle;
            proof {
                assert(self@ =~~= shifted_step(old(self)@, ev).0);
                assert(out@ =~~= shifted_step(old(self)@, ev).1);
            }
            out
        } else {
            match self.keymap.get(ev.code) {
                Some(mapped) => {
                    match ev.transition {
                        Transition::Down => {
                            push_unique(&mut self.buffer, mapped);
                        },
                        Transition::Up => {
                            remove_code_exec(&mut self.buffer, mapped);
                        },
                        Transition::Repeat => {},
                    }
                    let mut out: Vec<OutputKey> = Vec::new();
                    out.push(OutputKey { code: mapped, transition: ev.transition });
                    proof {
                        assert(self@ =~~= shifted_step(old(self)@, ev).0);
                        assert(out@ =~~= shifted_step(old(self)@, ev).1);
                    }
                    out
                },
                None => {
                    let mut out: Vec<OutputKey> = Vec::new();
                    out.push(OutputKey { code: ev.code, transition: ev.transition });
                    proof {
                        assert(self@ =~~= shifted_step(old(self)@, ev).0);
                        assert(out@ =~~= shifted_step(old(self)@, ev).1);
                    }
                    out
                },
            }
        }
    }
}

/// Whether the buffer holds `code`.
fn buffer_contains(buf: &Vec<u16>, code: u16) -> (r: bool)
    ensures
        r == buf@.contains(code),
{
    let mut i: usize = 0;
    while i < buf.len()
        invariant
            i <= buf.len(),
            forall|j: int| 0 <= j < i ==> buf@[j] != code,
        decreases buf.len() - i,
    {
        if buf[i] == code {
            proof {
                assert(buf@.contains(code));
            }
            return true;
        }
        i = i + 1;
    }
    false
}

/// Appends `code` unless it is already buffered.
fn push_unique(buf: &mut Vec<u16>, code: u16)
    ensures
        final(buf)@ == buffer_insert(old(buf)@, code),
{
    if !buffer_contains(buf, code) {
        buf.push(code);
    }
}

/// Removes every occurrence of `code` from the buffer.
fn remove_code_exec(buf: &mut Vec<u16>, code: u16)
    ensures
        final(buf)@ == buffer_remove(old(buf)@, code),
{
    let mut kept: Vec<u16> = Vec::new();
    let mut i: usize = 0;
    proof {
        assert(buf@.take(0) =~= Seq::<u16>::empty());
    }
    while i < buf.len()
        invariant
            i <= buf.len(),
            kept@ == buffer_remove(buf@.take(i as int), code),
        decreases buf.len() - i,
    {
        let ghost pre = buf@.take(i as int);
        if buf[i] != code {
            kept.push(buf[i]);
        }
        proof {
            assert(buf@.take(i + 1) =~= pre.push(buf@[i as int]));
            lemma_buffer_remove_push(pre, buf@[i as int], code);
            assert(kept@ =~= buffer_remove(buf@.take(i + 1), code));
        }
        i = i + 1;
    }
    proof {
        assert(buf@.take(buf@.len() as int) =~= buf@);
    }
    *buf = kept;
}

/// The remapped down/up pair for each buffered keycode, in order.
fn flush_exec(buf: &Vec<u16>, km: &Keymap) -> (out: Vec<OutputKey>)
    ensures
        out@ == flush_pairs(buf@, km@),
{
    let mut out: Vec<OutputKey> = Vec::new();
    let mut i: usize = 0;
    proof {
        assert(buf@.take(0) =~= Seq::<u16>::empty());
    }
    while i < buf.len()
        invariant
            i <= buf.len(),
            out@ == flush_pairs(buf@.take(i as int), km@),
        decreases buf.len() - i,
    {
        let ghost pre = buf@.take(i as int);
        let mapped = km.lookup(buf[i]);
        out.push(OutputKey { code: mapped, transition: Transition::Down });
        out.push(OutputKey { code: mapped, transition: Transition::Up });
        proof {
            assert(buf@.take(i + 1) =~= pre.push(buf@[i as int]));
            lemma_flush_pairs_push(pre, buf@[i as int], km@);
            assert(out@ =~= flush_pairs(buf@.take(i + 1), km@));
        }
        i = i + 1;
    }
    proof {
        assert(buf@.take(buf@.len() as int) =~= buf@);
    }
    out
}

/// A synthesized down for each buffered keycode, in order.
fn downs_exec(buf: &Vec<u16>) -> (out: Vec<OutputKey>)
    ensures
        out@ == downs_of(buf@),
{
    let mut out: Vec<OutputKey> = Vec::new();
    let mut i: usize = 0;
    proof {
        assert(buf@.take(0) =~= Seq::<u16>::empty());
        assert(out@ =~= downs_of(buf@.take(0)));
    }
    while i < buf.len()
        invariant
            i <= buf.len(),
            out@ == downs_of(buf@.take(i as int)),
        decreases buf.len() - i,
    {
        out.push(OutputKey { code: buf[i], transition: Transition::Down });
        proof {
            assert(out@ =~= downs_of(buf@.take(i + 1)));
        }
        i = i + 1;
    }
    proof {
        assert(buf@.take(buf@.len() as int) =~= buf@);
    }
    out
}

/// A synthesized up for each buffered keycode, in order.
fn ups_exec(buf: &Vec<u16>) -> (out: Vec<OutputKey>)
    ensures
        out@ == ups_of(buf@),
{
    let mut out: Vec<OutputKey> = Vec::new();
    let mut i: usize = 0;
    proof {
        assert(out@ =~= ups_of(buf@.take(0)));
    }
    while i < buf.len()
        invariant
            i <= buf.len(),
            out@ == ups_of(buf@.take(i as int)),
        decreases buf.len() - i,
    {
        out.push(OutputKey { code: buf[i], transition: Transition::Up });
        proof {
            assert(out@ =~= ups_of(buf@.take(i + 1)));
        }
        i = i + 1;
    }
    proof {
        assert(buf@.take(buf@.len() as int) =~= buf@);
    }
    out
}

} // verus!
