//! The data model of the interpreter: lexical tokens, the instruction
//! tree, a ghost mirror of that tree for use in specifications, and the
//! error taxonomy.

use vstd::prelude::*;

verus! {

/// One lexical unit, corresponding to one recognized source character.
#[derive(Clone, Copy, Debug, PartialEq, Eq, Structural)]
pub enum Token {
    /// `>`
    IncrementPointer,
    /// `<`
    DecrementPointer,
    /// `+`
    Increment,
    /// `-`
    Decrement,
    /// `.`
    Write,
    /// `,`
    Read,
    /// `[`
    LoopBegin,
    /// `]`
    LoopEnd,
}

/// One parsed, structurally validated unit of execution. Loops carry
/// their body as a nested instruction sequence, so a program is a tree.
#[derive(Debug, PartialEq, Eq)]
pub enum Instruction {
    IncrementPointer,
    DecrementPointer,
    Increment,
    Decrement,
    Write,
    Read,
    Loop(Vec<Instruction>),
}

/// The ghost mirror of [`Instruction`]: the same tree shape, with loop
/// bodies as mathematical sequences. Specifications speak of this type,
/// so that two instruction trees are interchangeable exactly when their
/// whole structure, loop bodies included, is equal.
pub enum InsnView {
    IncrementPointer,
    DecrementPointer,
    Increment,
    Decrement,
    Write,
    Read,
    Loop(Seq<InsnView>),
}

/// The deep view of one instruction: loop bodies become sequences of views.
pub open spec fn insn_view(i: Instruction) -> InsnView
    decreases i,
{
    match i {
        Instruction::IncrementPointer => InsnView::IncrementPointer,
        Instruction::DecrementPointer => InsnView::DecrementPointer,
        Instruction::Increment => InsnView::Increment,
        Instruction::Decrement => InsnView::Decrement,
        Instruction::Write => InsnView::Write,
        Instruction::Read => InsnView::Read,
        Instruction::Loop(body) => InsnView::Loop(insns_view(body@)),
    }
}

/// The deep view of an instruction sequence, elementwise.
pub open spec fn insns_view(s: Seq<Instruction>) -> Seq<InsnView>
    decreases s,
{
    if s.len() == 0 {
        Seq::empty()
    } else {
        seq![insn_view(s[0])] + insns_view(s.subrange(1, s.len() as int))
    }
}

/// The deep view maps each element in place.
pub proof fn lemma_insns_view_index(s: Seq<Instruction>)
    ensures
        insns_view(s).len() == s.len(),
        forall|i: int| 0 <= i < s.len() ==> insns_view(s)[i] == insn_view(s[i]),
    decreases s.len(),
{
    if s.len() > 0 {
        lemma_insns_view_index(s.subrange(1, s.len() as int));
    }
}

/// A structural fault found while parsing; execution never begins.
#[derive(Clone, Copy, Debug, PartialEq, Eq, Structural)]
pub enum ParseError {
    /// A `]` was met with no unmatched `[` before it; `pos` is the index
    /// of that token in the token sequence.
    UnmatchedClose { pos: usize },
    /// The scan ended with `open` many `[` still unmatched.
    UnmatchedOpen { open: usize },
}

/// A fatal fault raised while executing; the run stops where it occurred.
#[derive(Clone, Copy, Debug, PartialEq, Eq, Structural)]
pub enum RunError {
    /// The cursor was asked to move outside the tape; `cursor` is its
    /// position at the failed move.
    CursorOutOfBounds { cursor: usize },
    /// A read instruction found the input source exhausted.
    InputExhausted,
}

/// Any fault of the whole pipeline, per stage.
#[derive(Clone, Copy, Debug, PartialEq, Eq, Structural)]
pub enum Error {
    Syntax(ParseError),
    Runtime(RunError),
}

} // verus!
