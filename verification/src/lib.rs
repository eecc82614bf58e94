//! A verified interpreter for a minimalist eight-command tape language.
//!
//! The pipeline has three stages, used in strict order: the lexer turns
//! source text into a sequence of [`ast::Token`]s, the parser turns that
//! sequence into a tree of [`ast::Instruction`]s (loops become nested
//! subtrees), and the executor runs the tree against a fixed-size byte
//! tape under a movable cursor.

pub mod ast;
pub mod lexer;
pub mod machine;
pub mod parser;

use vstd::prelude::*;

use crate::ast::Error;
use crate::ast::ParseError;
use crate::lexer::lex_spec;
use crate::machine::Executor;
use crate::machine::RunOutcome;
use crate::machine::init_state;
use crate::machine::run_spec;
use crate::parser::balanced;
use crate::parser::dsum;
use crate::parser::has_viol;
use crate::parser::parse_ok;
use crate::parser::viol_at;

verus! {

/// Run a whole program: lex `source`, parse the tokens, and execute the
/// tree against a fresh machine that reads from `input`, within a
/// budget of `fuel` loop-body entries.
///
/// A syntax error is reported as the parser reports it, whatever the
/// fuel. On a balanced program the result is exactly that of
/// [`run_spec`] on the parsed tree from the initial state: the output
/// bytes on a normal end, the runtime error where one occurred, and
/// `None` when the budget ran out first — a caller that wants an
/// unbounded run retries with more fuel.
pub fn run(source: String, input: Vec<u8>, fuel: u64) -> (r: Option<Result<Vec<u8>, Error>>)
    ensures
        ({
            let ts = lex_spec(source@);
            let n = ts.len() as int;
            let outcome = run_spec(parse_ok(ts, 0, n), init_state(input@), fuel as nat);
            match r {
                None => balanced(ts, 0, n) && outcome == RunOutcome::OutOfFuel,
                Some(Ok(out)) => balanced(ts, 0, n) && (outcome matches RunOutcome::Done(mfin)
                    && out@ == mfin.output),
                Some(Err(Error::Syntax(ParseError::UnmatchedClose { pos }))) => pos < n && viol_at(
                    ts,
                    0,
                    pos as int,
                ) && (forall|m: int| 0 <= m < pos ==> !(#[trigger] viol_at(ts, 0, m))),
                Some(Err(Error::Syntax(ParseError::UnmatchedOpen { open }))) => !has_viol(ts, 0, n)
                    && dsum(ts, 0, n) == open as int && open > 0,
                Some(Err(Error::Runtime(e))) => balanced(ts, 0, n) && (outcome
                    matches RunOutcome::Fail(e2, mfin) && e2 == e),
            }
        }),
{
    let tokens = lexer::scan_tokens(source);
    let instructions = match parser::parse_tokens(tokens) {
        Ok(p) => p,
        Err(e) => {
            return Some(Err(Error::Syntax(e)));
        },
    };
    let mut ex = Executor::new(input);
    match ex.run_instructions(&instructions, fuel) {
        Some(Ok(())) => Some(Ok(ex.into_output())),
        Some(Err(e)) => Some(Err(Error::Runtime(e))),
        None => None,
    }
}

} // verus!
