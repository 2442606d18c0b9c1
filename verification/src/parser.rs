//! Minimal ECMA-48 state machine that classifies each byte as content
//! or escape-sequence material.

use vstd::prelude::*;

verus! {

/// Action returned by [`Parser::feed`]: emit the byte as content or skip it.
#[derive(Copy, Clone, Debug, PartialEq, Eq, Structural)]
pub enum Action {
    /// Byte is content — emit it.
    Emit,
    /// Byte is part of an escape sequence — skip it.
    Skip,
}

/// ECMA-48 parser states.
///
/// SOS/PM/APC share `StringPassthrough` since their behaviour is identical.
#[derive(Copy, Clone, Debug, PartialEq, Eq, Structural)]
pub enum State {
    Ground,
    EscapeStart,
    CsiParam,
    CsiIntermediate,
    OscString,
    OscStEsc,
    DcsEntry,
    DcsParam,
    DcsPassthrough,
    DcsStEsc,
    /// SOS, PM, APC collapsed — all consume until ST.
    StringPassthrough,
    StringStEsc,
    Ss2,
    Ss3,
    EscIntermediate,
}

/// The ESC byte.
pub const ESC: u8 = 0x1B;

/// CAN and SUB abort any sequence except the single-byte SS2/SS3 payload.
pub open spec fn is_abort_byte(b: u8) -> bool {
    b == 0x18 || b == 0x1A
}

/// State reached from `EscapeStart` on byte `b` (every such byte is skipped).
pub open spec fn escape_start_next(b: u8) -> State {
    if b == 0x5B {
        State::CsiParam
    } else if b == 0x5D {
        State::OscString
    } else if b == 0x50 {
        State::DcsEntry
    } else if b == 0x58 || b == 0x5E || b == 0x5F {
        State::StringPassthrough
    } else if b == 0x4E {
        State::Ss2
    } else if b == 0x4F {
        State::Ss3
    } else if 0x20 <= b <= 0x2F {
        State::EscIntermediate
    } else {
        State::Ground
    }
}

/// State reached after a byte that may terminate a control string:
/// `ESC \` ends it, anything else re-enters `EscapeStart` with that byte.
pub open spec fn st_esc_next(b: u8) -> State {
    if b == 0x5C {
        State::Ground
    } else {
        escape_start_next(b)
    }
}

/// The transition function of the parser: next state and action for one byte.
pub open spec fn step(s: State, b: u8) -> (State, Action) {
    match s {
        State::Ground => if b == ESC {
            (State::EscapeStart, Action::Skip)
        } else {
            (State::Ground, Action::Emit)
        },
        State::EscapeStart => (escape_start_next(b), Action::Skip),
        State::CsiParam => (
            if 0x30 <= b <= 0x3F {
                State::CsiParam
            } else if 0x20 <= b <= 0x2F {
                State::CsiIntermediate
            } else if b == ESC {
                State::EscapeStart
            } else {
                State::Ground
            },
            Action::Skip,
        ),
        State::CsiIntermediate => (
            if 0x20 <= b <= 0x2F {
                State::CsiIntermediate
            } else if b == ESC {
                State::EscapeStart
            } else {
                State::Ground
            },
            Action::Skip,
        ),
        State::OscString => (
            if b == 0x07 || is_abort_byte(b) {
                State::Ground
            } else if b == ESC {
                State::OscStEsc
            } else {
                State::OscString
            },
            Action::Skip,
        ),
        State::DcsEntry => (
            if is_abort_byte(b) {
                State::Ground
            } else if 0x30 <= b <= 0x3F {
                State::DcsParam
            } else if b == ESC {
                State::DcsStEsc
            } else {
                State::DcsPassthrough
            },
            Action::Skip,
        ),
        State::DcsParam => (
            if is_abort_byte(b) {
                State::Ground
            } else if 0x30 <= b <= 0x3F {
                State::DcsParam
            } else if b == ESC {
                State::DcsStEsc
            } else {
                State::DcsPassthrough
            },
            Action::Skip,
        ),
        State::DcsPassthrough => (
            if is_abort_byte(b) {
                State::Ground
            } else if b == ESC {
                State::DcsStEsc
            } else {
                State::DcsPassthrough
            },
            Action::Skip,
        ),
        State::StringPassthrough => (
            if is_abort_byte(b) {
                State::Ground
            } else if b == ESC {
                State::StringStEsc
            } else {
                State::StringPassthrough
            },
            Action::Skip,
        ),
        State::OscStEsc | State::DcsStEsc | State::StringStEsc => (st_esc_next(b), Action::Skip),
        State::Ss2 | State::Ss3 => (State::Ground, Action::Skip),
        State::EscIntermediate => (
            if 0x20 <= b <= 0x2F {
                State::EscIntermediate
            } else if b == ESC {
                State::EscapeStart
            } else {
                State::Ground
            },
            Action::Skip,
        ),
    }
}

/// State after running the parser from `s` over all of `input`.
pub open spec fn run_state(s: State, input: Seq<u8>) -> State
    decreases input.len(),
{
    if input.len() == 0 {
        s
    } else {
        step(run_state(s, input.drop_last()), input.last()).0
    }
}

/// Content bytes emitted while running the parser from `s` over `input`.
pub open spec fn run_out(s: State, input: Seq<u8>) -> Seq<u8>
    decreases input.len(),
{
    if input.len() == 0 {
        Seq::empty()
    } else {
        let prev = run_state(s, input.drop_last());
        run_out(s, input.drop_last()) + if step(prev, input.last()).1 == Action::Emit {
            seq![input.last()]
        } else {
            Seq::empty()
        }
    }
}


/// Running over a sequence extended by one byte takes one more step.
pub proof fn lemma_run_push(s: State, t: Seq<u8>, x: u8)
    ensures
        run_state(s, t.push(x)) == step(run_state(s, t), x).0,
        run_out(s, t.push(x)) == run_out(s, t) + if step(run_state(s, t), x).1 == Action::Emit {
            seq![x]
        } else {
            Seq::<u8>::empty()
        },
{
    assert(t.push(x).drop_last() =~= t);
}

/// Running over a concatenation is running over each part in turn.
pub proof fn lemma_run_concat(s: State, a: Seq<u8>, b: Seq<u8>)
    ensures
        run_state(s, a + b) == run_state(run_state(s, a), b),
        run_out(s, a + b) == run_out(s, a) + run_out(run_state(s, a), b),
    decreases b.len(),
{
    if b.len() == 0 {
        assert(a + b =~= a);
        assert(run_out(s, a) + run_out(run_state(s, a), b) =~= run_out(s, a));
    } else {
        let b0 = b.drop_last();
        lemma_run_concat(s, a, b0);
        assert((a + b).drop_last() =~= a + b0);
        assert((a + b).last() == b.last());
        let m = run_state(s, a);
        let e = if step(run_state(m, b0), b.last()).1 == Action::Emit {
            seq![b.last()]
        } else {
            Seq::<u8>::empty()
        };
        assert(run_out(m, b) == run_out(m, b0) + e);
        assert(run_out(s, a + b) == run_out(s, a + b0) + e);
        assert(run_out(s, a) + run_out(m, b) =~= run_out(s, a) + run_out(m, b0) + e);
    }
}

/// Only a non-ESC byte seen in the ground state is emitted, and it leaves
/// the parser in the ground state.
pub proof fn lemma_emit_only_from_ground(s: State, b: u8)
    ensures
        step(s, b).1 == Action::Emit ==> s == State::Ground && b != ESC && step(s, b).0
            == State::Ground,
{
}

/// From the ground state, input without ESC is emitted unchanged and the
/// parser stays in the ground state.
pub proof fn lemma_ground_no_esc(t: Seq<u8>)
    requires
        !t.contains(ESC),
    ensures
        run_state(State::Ground, t) == State::Ground,
        run_out(State::Ground, t) == t,
    decreases t.len(),
{
    if t.len() > 0 {
        let t0 = t.drop_last();
        assert(!t0.contains(ESC)) by {
            if t0.contains(ESC) {
                let k = choose|k: int| 0 <= k < t0.len() && t0[k] == ESC;
                assert(t[k] == ESC);
            }
        }
        assert(t.last() != ESC) by {
            assert(t[t.len() - 1] == t.last());
        }
        lemma_ground_no_esc(t0);
        assert(run_out(State::Ground, t) =~= t0.push(t.last()));
        assert(t0.push(t.last()) =~= t);
    }
}

/// The parser never emits an ESC byte.
pub proof fn lemma_out_no_esc(s: State, t: Seq<u8>)
    ensures
        !run_out(s, t).contains(ESC),
    decreases t.len(),
{
    if t.len() > 0 {
        let t0 = t.drop_last();
        lemma_out_no_esc(s, t0);
        lemma_emit_only_from_ground(run_state(s, t0), t.last());
        let o = run_out(s, t);
        assert(!o.contains(ESC)) by {
            if o.contains(ESC) {
                let k = choose|k: int| 0 <= k < o.len() && o[k] == ESC;
                if k < run_out(s, t0).len() {
                    assert(run_out(s, t0)[k] == ESC);
                }
            }
        }
    }
}

/// Minimal ECMA-48 state machine for classifying bytes as escape-sequence
/// or content. Does not interpret sequences.
#[derive(Copy, Clone, Debug, PartialEq, Eq, Structural)]
pub struct Parser {
    state: State,
}

impl View for Parser {
    type V = State;

    closed spec fn view(&self) -> State {
        self.state
    }
}

impl Parser {
    /// Create a new parser in the ground state.
    pub fn new() -> (p: Self)
        ensures
            p@ == State::Ground,
    {
        Parser { state: State::Ground }
    }

    /// Reset the parser to the ground state.
    pub fn reset(&mut self)
        ensures
            final(self)@ == State::Ground,
    {
        self.state = State::Ground;
    }

    /// Returns `true` if the parser is in the ground state.
    pub fn is_ground(&self) -> (b: bool)
        ensures
            b == (self@ == State::Ground),
    {
        self.state == State::Ground
    }

    /// Returns the current parser state.
    pub fn state(&self) -> (s: State)
        ensures
            s == self@,
    {
        self.state
    }

    /// Transition taken from `EscapeStart` on byte `b`.
    fn escape_start(b: u8) -> (s: State)
        ensures
            s == escape_start_next(b),
    {
        match b {
            0x5B => State::CsiParam,
            0x5D => State::OscString,
            0x50 => State::DcsEntry,
            0x58 | 0x5E | 0x5F => State::StringPassthrough,
            0x4E => State::Ss2,
            0x4F => State::Ss3,
            0x20..=0x2F => State::EscIntermediate,
            _ => State::Ground,
        }
    }

    /// Feed a single byte through the state machine.
    ///
    /// Returns [`Action::Emit`] if the byte is content, [`Action::Skip`]
    /// if it is part of an escape sequence.
    pub fn feed(&mut self, byte: u8) -> (a: Action)
        ensures
            (final(self)@, a) == step(old(self)@, byte),
    {
        let b = byte;
        match self.state {
            State::Ground => {
                if b == ESC {
                    self.state = State::EscapeStart;
                    return Action::Skip;
                }
                Action::Emit
            },
            State::EscapeStart => {
                self.state = Self::escape_start(b);
                Action::Skip
            },
            State::CsiParam => {
                match b {
                    0x30..=0x3F => {},
                    0x20..=0x2F => self.state = State::CsiIntermediate,
                    0x1B => self.state = State::EscapeStart,
                    _ => self.state = State::Ground,
                }
                Action::Skip
            },
            State::CsiIntermediate => {
                match b {
                    0x20..=0x2F => {},
                    0x1B => self.state = State::EscapeStart,
                    _ => self.state = State::Ground,
                }
                Action::Skip
            },
            State::OscString => {
                match b {
                    0x07 | 0x18 | 0x1A => self.state = State::Ground,
                    0x1B => self.state = State::OscStEsc,
                    _ => {},
                }
                Action::Skip
            },
            State::DcsEntry | State::DcsParam => {
                match b {
                    0x18 | 0x1A => self.state = State::Ground,
                    0x30..=0x3F => self.state = State::DcsParam,
                    0x1B => self.state = State::DcsStEsc,
                    _ => self.state = State::DcsPassthrough,
                }
                Action::Skip
            },
            State::DcsPassthrough => {
                match b {
                    0x18 | 0x1A => self.state = State::Ground,
                    0x1B => self.state = State::DcsStEsc,
                    _ => {},
                }
                Action::Skip
            },
            State::StringPassthrough => {
                match b {
                    0x18 | 0x1A => self.state = State::Ground,
                    0x1B => self.state = State::StringStEsc,
                    _ => {},
                }
                Action::Skip
            },
            State::OscStEsc | State::DcsStEsc | State::StringStEsc => {
                if b == 0x5C {
                    self.state = State::Ground;
                } else {
                    // Not ST: the byte re-enters as the start of a new escape.
                    self.state = Self::escape_start(b);
                }
                Action::Skip
            },
            State::Ss2 | State::Ss3 => {
                self.state = State::Ground;
                Action::Skip
            },
            State::EscIntermediate => {
                match b {
                    0x20..=0x2F => {},
                    0x1B => self.state = State::EscapeStart,
                    _ => self.state = State::Ground,
                }
                Action::Skip
            },
        }
    }
}

impl Default for Parser {
    fn default() -> (p: Self)
        ensures
            p@ == State::Ground,
    {
        Self::new()
    }
}

} // verus!
