//! The executor: an instruction tree run against a fixed-size byte tape
//! under a movable cursor, with a byte input source and a byte output
//! sink.
//!
//! What a run means is given by [`run_spec`], a big-step interpreter
//! over ghost machine states, indexed by fuel. Fuel bounds only how
//! often loop bodies may be entered; it is not part of the language: an
//! outcome reached within some fuel is the outcome under every larger
//! fuel ([`lemma_run_spec_mono`]). The executable interpreter takes its
//! fuel as an argument and reproduces [`run_spec`] exactly, reporting
//! separately when the fuel ran out before the program ended.

use vstd::prelude::*;

use crate::ast::InsnView;
use crate::ast::Instruction;
use crate::ast::RunError;
use crate::ast::insn_view;
use crate::ast::insns_view;
use crate::ast::lemma_insns_view_index;

verus! {

/// The number of cells of the tape.
pub const TAPE_LEN: usize = 1024;

/// A snapshot of the whole mutable state of a run: the tape, the
/// cursor, the input bytes not yet read, and the output bytes written
/// so far.
pub struct MachineState {
    pub tape: Seq<u8>,
    pub cursor: int,
    pub input: Seq<u8>,
    pub output: Seq<u8>,
}

/// The state a run starts from: a zeroed tape, the cursor at 0, the
/// whole input ahead, and nothing written.
pub open spec fn init_state(input: Seq<u8>) -> MachineState {
    MachineState {
        tape: Seq::new(TAPE_LEN as nat, |i: int| 0u8),
        cursor: 0,
        input,
        output: Seq::empty(),
    }
}

/// Cell increment, wrapping modulo 256.
pub open spec fn wrap_inc(c: u8) -> u8 {
    (((c as int) + 1) % 256) as u8
}

/// Cell decrement, wrapping modulo 256.
pub open spec fn wrap_dec(c: u8) -> u8 {
    (((c as int) - 1) % 256) as u8
}

/// How a run of an instruction sequence can end: normally, with a fatal
/// error, or not at all within the given fuel.
pub enum RunOutcome {
    Done(MachineState),
    Fail(RunError, MachineState),
    OutOfFuel,
}

/// Run `prog` from `m`: each instruction in order, a loop node run by
/// re-checking the cell under the cursor before every iteration of its
/// body. Entering a loop body costs one unit of `fuel`, and the rest of
/// the run goes on with the smaller budget; a run that needs more than
/// `fuel` such entries is `OutOfFuel`.
///
/// Cell arithmetic wraps modulo 256 and never fails. Moving the cursor
/// outside the tape, and reading from an exhausted input source, end
/// the run at once with a fatal error carrying the state at that point.
pub open spec fn run_spec(prog: Seq<InsnView>, m: MachineState, fuel: nat) -> RunOutcome
    decreases fuel, prog.len(),
{
    if prog.len() == 0 {
        RunOutcome::Done(m)
    } else {
        let rest = prog.subrange(1, prog.len() as int);
        match prog[0] {
            InsnView::IncrementPointer => if m.cursor + 1 < m.tape.len() {
                run_spec(rest, MachineState { cursor: m.cursor + 1, ..m }, fuel)
            } else {
                RunOutcome::Fail(RunError::CursorOutOfBounds { cursor: m.cursor as usize }, m)
            },
            InsnView::DecrementPointer => if m.cursor >= 1 {
                run_spec(rest, MachineState { cursor: m.cursor - 1, ..m }, fuel)
            } else {
                RunOutcome::Fail(RunError::CursorOutOfBounds { cursor: 0 }, m)
            },
            InsnView::Increment => run_spec(
                rest,
                MachineState { tape: m.tape.update(m.cursor, wrap_inc(m.tape[m.cursor])), ..m },
                fuel,
            ),
            InsnView::Decrement => run_spec(
                rest,
                MachineState { tape: m.tape.update(m.cursor, wrap_dec(m.tape[m.cursor])), ..m },
                fuel,
            ),
            InsnView::Write => run_spec(
                rest,
                MachineState { output: m.output.push(m.tape[m.cursor]), ..m },
                fuel,
            ),
            InsnView::Read => if m.input.len() == 0 {
                RunOutcome::Fail(RunError::InputExhausted, m)
            } else {
                run_spec(
                    rest,
                    MachineState {
                        tape: m.tape.update(m.cursor, m.input[0]),
                        input: m.input.subrange(1, m.input.len() as int),
                        ..m
                    },
                    fuel,
                )
            },
            InsnView::Loop(body) => if m.tape[m.cursor] == 0 {
                run_spec(rest, m, fuel)
            } else if fuel == 0 {
                RunOutcome::OutOfFuel
            } else {
                match run_spec(body, m, (fuel - 1) as nat) {
                    RunOutcome::Done(m2) => run_spec(prog, m2, (fuel - 1) as nat),
                    RunOutcome::Fail(e, mf) => RunOutcome::Fail(e, mf),
                    RunOutcome::OutOfFuel => RunOutcome::OutOfFuel,
                }
            },
        }
    }
}

/// Fuel only cuts a run short, it never changes it: an outcome reached
/// within some fuel is the outcome under every larger fuel. A run that
/// ends at all therefore ends the same way whatever sufficient fuel it
/// is given.
pub proof fn lemma_run_spec_mono(prog: Seq<InsnView>, m: MachineState, f1: nat, f2: nat)
    requires
        f1 <= f2,
        run_spec(prog, m, f1) != RunOutcome::OutOfFuel,
    ensures
        run_spec(prog, m, f2) == run_spec(prog, m, f1),
    decreases f2, prog.len(),
{
    if prog.len() == 0 {
    } else {
        let rest = prog.subrange(1, prog.len() as int);
        match prog[0] {
            InsnView::IncrementPointer => {
                if m.cursor + 1 < m.tape.len() {
                    lemma_run_spec_mono(rest, MachineState { cursor: m.cursor + 1, ..m }, f1, f2);
                }
            },
            InsnView::DecrementPointer => {
                if m.cursor >= 1 {
                    lemma_run_spec_mono(rest, MachineState { cursor: m.cursor - 1, ..m }, f1, f2);
                }
            },
            InsnView::Increment => {
                lemma_run_spec_mono(
                    rest,
                    MachineState { tape: m.tape.update(m.cursor, wrap_inc(m.tape[m.cursor])), ..m },
                    f1,
                    f2,
                );
            },
            InsnView::Decrement => {
                lemma_run_spec_mono(
                    rest,
                    MachineState { tape: m.tape.update(m.cursor, wrap_dec(m.tape[m.cursor])), ..m },
                    f1,
                    f2,
                );
            },
            InsnView::Write => {
                lemma_run_spec_mono(
                    rest,
                    MachineState { output: m.output.push(m.tape[m.cursor]), ..m },
                    f1,
                    f2,
                );
            },
            InsnView::Read => {
                if m.input.len() != 0 {
                    lemma_run_spec_mono(
                        rest,
                        MachineState {
                            tape: m.tape.update(m.cursor, m.input[0]),
                            input: m.input.subrange(1, m.input.len() as int),
                            ..m
                        },
                        f1,
                        f2,
                    );
                }
            },
            InsnView::Loop(body) => {
                if m.tape[m.cursor] == 0 {
                    lemma_run_spec_mono(rest, m, f1, f2);
                } else {
                    match run_spec(body, m, (f1 - 1) as nat) {
                        RunOutcome::Done(m2) => {
                            lemma_run_spec_mono(body, m, (f1 - 1) as nat, (f2 - 1) as nat);
                            lemma_run_spec_mono(prog, m2, (f1 - 1) as nat, (f2 - 1) as nat);
                        },
                        RunOutcome::Fail(e, mf) => {
                            lemma_run_spec_mono(body, m, (f1 - 1) as nat, (f2 - 1) as nat);
                        },
                        RunOutcome::OutOfFuel => {},
                    }
                }
            },
        }
    }
}

/// Cell arithmetic wraps modulo 256 and is total: a cell holding 255
/// increments to 0, and a cell holding 0 decrements to 255.
pub proof fn lemma_cell_arithmetic_wraps(c: u8)
    ensures
        wrap_inc(c) as int == ((c as int) + 1) % 256,
        wrap_dec(c) as int == ((c as int) - 1) % 256,
        c == 255 ==> wrap_inc(c) == 0,
        c == 0 ==> wrap_dec(c) == 255,
{
}

/// Decrementing the cursor when it is already 0 fails at once with a
/// cursor bounds error, in the very state it was attempted; it never
/// wraps.
pub proof fn lemma_cursor_underflow(rest: Seq<InsnView>, m: MachineState, fuel: nat)
    requires
        m.cursor == 0,
    ensures
        run_spec(seq![InsnView::DecrementPointer] + rest, m, fuel) == RunOutcome::Fail(
            RunError::CursorOutOfBounds { cursor: 0 },
            m,
        ),
{
    let prog = seq![InsnView::DecrementPointer] + rest;
    assert(prog[0] == InsnView::DecrementPointer);
}

/// The executor: exclusive owner of the tape, the cursor, the input
/// source and the output sink for the duration of one run.
pub struct Executor {
    tape: Vec<u8>,
    cursor: usize,
    input: Vec<u8>,
    ipos: usize,
    output: Vec<u8>,
}

impl View for Executor {
    type V = MachineState;

    closed spec fn view(&self) -> MachineState {
        MachineState {
            tape: self.tape@,
            cursor: self.cursor as int,
            input: self.input@.skip(self.ipos as int),
            output: self.output@,
        }
    }
}

impl Executor {
    /// The executor's internal invariant: the cursor is on the tape,
    /// the tape has its fixed length, and the input position is within
    /// the input.
    pub closed spec fn wf(&self) -> bool {
        self.cursor < self.tape.len() && self.tape.len() == TAPE_LEN && self.ipos
            <= self.input.len()
    }

    /// A fresh executor over `input`: zeroed tape, cursor at 0, nothing
    /// written yet.
    pub fn new(input: Vec<u8>) -> (r: Executor)
        ensures
            r.wf(),
            r@ == init_state(input@),
    {
        let mut tape: Vec<u8> = Vec::new();
        let mut i: usize = 0;
        while i < TAPE_LEN
            invariant
                i <= TAPE_LEN,
                tape@.len() == i,
                forall|k: int| 0 <= k < i ==> tape@[k] == 0u8,
            decreases TAPE_LEN - i,
        {
            tape.push(0u8);
            i = i + 1;
        }
        let r = Executor { tape, cursor: 0, input, ipos: 0, output: Vec::new() };
        proof {
            assert(r@.tape =~= init_state(r.input@).tape);
            assert(r@.input =~= r.input@);
            assert(r@.output =~= init_state(r.input@).output);
        }
        r
    }

    /// The tape, for inspection after a run.
    pub fn tape(&self) -> (r: &Vec<u8>)
        ensures
            r@ == self@.tape,
    {
        &self.tape
    }

    /// The cursor, for inspection after a run.
    pub fn cursor(&self) -> (r: usize)
        ensures
            r as int == self@.cursor,
    {
        self.cursor
    }

    /// The output written so far.
    pub fn output(&self) -> (r: &Vec<u8>)
        ensures
            r@ == self@.output,
    {
        &self.output
    }

    /// Give up the executor and keep only what it wrote.
    pub fn into_output(self) -> (r: Vec<u8>)
        ensures
            r@ == self@.output,
    {
        self.output
    }

    /// Run `prog` within a budget of `fuel` loop-body entries.
    ///
    /// The result and the final state are exactly those of [`run_spec`]
    /// on the same program, start state and fuel: `Some(Ok(()))` for a
    /// normal end, `Some(Err(e))` for a fatal error, and `None` when
    /// the budget ran out first. A caller that wants an unbounded run
    /// retries with more fuel on `None`; by [`lemma_run_spec_mono`] the
    /// outcome, once reached, does not depend on the fuel.
    #[verifier::loop_isolation(false)]
    pub fn run_instructions(&mut self, prog: &Vec<Instruction>, fuel: u64) -> (r: Option<
        Result<(), RunError>,
    >)
        requires
            old(self).wf(),
        ensures
            final(self).wf(),
            match r {
                Some(Ok(())) => run_spec(insns_view(prog@), old(self)@, fuel as nat)
                    == RunOutcome::Done(final(self)@),
                Some(Err(e)) => run_spec(insns_view(prog@), old(self)@, fuel as nat)
                    == RunOutcome::Fail(e, final(self)@),
                None => run_spec(insns_view(prog@), old(self)@, fuel as nat)
                    == RunOutcome::OutOfFuel,
            },
        decreases prog@,
    {
        let ghost pv = insns_view(prog@);
        let ghost m0 = self@;
        proof {
            lemma_insns_view_index(prog@);
        }
        let n = prog.len();
        let mut ip: usize = 0;
        let mut fuel_cur: u64 = fuel;
        proof {
            assert(pv.subrange(0, n as int) =~= pv);
        }
        while ip < n
            invariant
                self.wf(),
                ip <= n,
                fuel_cur <= fuel,
                run_spec(pv, m0, fuel as nat) == run_spec(
                    pv.subrange(ip as int, n as int),
                    self@,
                    fuel_cur as nat,
                ),
            decreases n - ip,
        {
            let ghost m_pre = self@;
            let ghost suffix = pv.subrange(ip as int, n as int);
            let ghost rest = pv.subrange(ip + 1, n as int);
            proof {
                assert(suffix[0] == pv[ip as int]);
                assert(suffix.subrange(1, suffix.len() as int) =~= rest);
            }
            match &prog[ip] {
                Instruction::IncrementPointer => {
                    if self.cursor + 1 < TAPE_LEN {
                        self.cursor = self.cursor + 1;
                    } else {
                        let e = RunError::CursorOutOfBounds { cursor: self.cursor };
                        proof {
                            assert(run_spec(suffix, m_pre, fuel_cur as nat) == RunOutcome::Fail(
                                e,
                                m_pre,
                            ));
                        }
                        return Some(Err(e));
                    }
                },
                Instruction::DecrementPointer => {
                    if self.cursor >= 1 {
                        self.cursor = self.cursor - 1;
                    } else {
                        let e = RunError::CursorOutOfBounds { cursor: 0 };
                        proof {
                            assert(run_spec(suffix, m_pre, fuel_cur as nat) == RunOutcome::Fail(
                                e,
                                m_pre,
                            ));
                        }
                        return Some(Err(e));
                    }
                },
                Instruction::Increment => {
                    let c = self.tape[self.cursor];
                    let c2 = if c == 255 {
                        0
                    } else {
                        c + 1
                    };
                    self.tape.set(self.cursor, c2);
                    proof {
                        assert(c2 == wrap_inc(c));
                    }
                },
                Instruction::Decrement => {
                    let c = self.tape[self.cursor];
                    let c2 = if c == 0 {
                        255
                    } else {
                        c - 1
                    };
                    self.tape.set(self.cursor, c2);
                    proof {
                        assert(c2 == wrap_dec(c));
                    }
                },
                Instruction::Write => {
                    let c = self.tape[self.cursor];
                    self.output.push(c);
                },
                Instruction::Read => {
                    if self.ipos < self.input.len() {
                        let b = self.input[self.ipos];
                        self.tape.set(self.cursor, b);
                        self.ipos = self.ipos + 1;
                        proof {
                            assert(m_pre.input[0] == b);
                            assert(self@.input =~= m_pre.input.subrange(
                                1,
                                m_pre.input.len() as int,
                            ));
                        }
                    } else {
                        let e = RunError::InputExhausted;
                        proof {
                            assert(m_pre.input.len() == 0);
                            assert(run_spec(suffix, m_pre, fuel_cur as nat) == RunOutcome::Fail(
                                e,
                                m_pre,
                            ));
                        }
                        return Some(Err(e));
                    }
                },
                Instruction::Loop(body) => {
                    let ghost bv = insns_view(body@);
                    proof {
                        assert(insn_view(prog@[ip as int]) == InsnView::Loop(bv));
                    }
                    while self.tape[self.cursor] != 0
                        invariant
                            self.wf(),
                            fuel_cur <= fuel,
                            run_spec(pv, m0, fuel as nat) == run_spec(
                                suffix,
                                self@,
                                fuel_cur as nat,
                            ),
                        decreases fuel_cur,
                    {
                        if fuel_cur == 0 {
                            proof {
                                assert(run_spec(suffix, self@, 0nat) == RunOutcome::OutOfFuel);
                            }
                            return None;
                        }
                        fuel_cur = fuel_cur - 1;
                        let ghost m_it = self@;
                        proof {
                            assert(decreases_to!(prog@ => prog@[ip as int]));
                            assert(decreases_to!(prog@[ip as int] => *body));
                            assert(decreases_to!(*body => body@));
                        }
                        let res = self.run_instructions(body, fuel_cur);
                        match res {
                            Some(Ok(())) => {
                                proof {
                                    assert(run_spec(suffix, m_it, (fuel_cur + 1) as nat)
                                        == run_spec(suffix, self@, fuel_cur as nat));
                                }
                            },
                            Some(Err(e)) => {
                                proof {
                                    assert(run_spec(suffix, m_it, (fuel_cur + 1) as nat)
                                        == RunOutcome::Fail(e, self@));
                                }
                                return Some(Err(e));
                            },
                            None => {
                                proof {
                                    assert(run_spec(suffix, m_it, (fuel_cur + 1) as nat)
                                        == RunOutcome::OutOfFuel);
                                }
                                return None;
                            },
                        }
                    }
                    proof {
                        assert(run_spec(suffix, self@, fuel_cur as nat) == run_spec(
                            rest,
                            self@,
                            fuel_cur as nat,
                        ));
                    }
                },
            }
            ip = ip + 1;
        }
        proof {
            assert(pv.subrange(n as int, n as int) =~= Seq::<InsnView>::empty());
            assert(run_spec(pv.subrange(n as int, n as int), self@, fuel_cur as nat)
                == RunOutcome::Done(self@));
        }
        Some(Ok(()))
    }
}

} // verus!
