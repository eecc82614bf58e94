//! The lexer: source text to an ordered sequence of tokens.
//!
//! Each of the eight recognized characters maps to its token; every other
//! character is a comment and is dropped. The lexer never fails.

use vstd::prelude::*;

use crate::ast::Token;

verus! {

/// Whether `c` is one of the eight recognized command characters.
pub open spec fn is_command(c: char) -> bool {
    c == '>' || c == '<' || c == '+' || c == '-' || c == '.' || c == ',' || c == '[' || c == ']'
}

/// The token of a recognized command character.
pub open spec fn token_of(c: char) -> Token {
    if c == '>' {
        Token::IncrementPointer
    } else if c == '<' {
        Token::DecrementPointer
    } else if c == '+' {
        Token::Increment
    } else if c == '-' {
        Token::Decrement
    } else if c == '.' {
        Token::Write
    } else if c == ',' {
        Token::Read
    } else if c == '[' {
        Token::LoopBegin
    } else {
        Token::LoopEnd
    }
}

/// What the lexer produces on `s`: the tokens of the recognized
/// characters of `s`, in order; everything else is dropped.
pub open spec fn lex_spec(s: Seq<char>) -> Seq<Token>
    decreases s.len(),
{
    if s.len() == 0 {
        Seq::empty()
    } else {
        lex_spec(s.drop_last()) + (if is_command(s.last()) {
            seq![token_of(s.last())]
        } else {
            Seq::empty()
        })
    }
}

/// How many recognized command characters `s` holds.
pub open spec fn count_commands(s: Seq<char>) -> nat
    decreases s.len(),
{
    if s.len() == 0 {
        0
    } else {
        count_commands(s.drop_last()) + (if is_command(s.last()) {
            1nat
        } else {
            0nat
        })
    }
}

/// The lexer never fails, and on every source the token sequence is
/// exactly as long as the count of recognized command characters.
pub proof fn lemma_token_count(s: Seq<char>)
    ensures
        lex_spec(s).len() == count_commands(s),
    decreases s.len(),
{
    if s.len() > 0 {
        lemma_token_count(s.drop_last());
    }
}

/// Scan the source left to right and map each recognized character to
/// its token, dropping all others.
pub fn scan_tokens(source: String) -> (tokens: Vec<Token>)
    ensures
        tokens@ == lex_spec(source@),
{
    let mut tokens: Vec<Token> = Vec::new();
    let n = source.as_str().unicode_len();
    let mut i: usize = 0;
    while i < n
        invariant
            n == source@.len(),
            i <= n,
            tokens@ == lex_spec(source@.take(i as int)),
        decreases n - i,
    {
        let c = source.as_str().get_char(i);
        proof {
            assert(source@.take(i + 1).drop_last() =~= source@.take(i as int));
            assert(source@.take(i + 1).last() == source@[i as int]);
        }
        match c {
            '>' => tokens.push(Token::IncrementPointer),
            '<' => tokens.push(Token::DecrementPointer),
            '+' => tokens.push(Token::Increment),
            '-' => tokens.push(Token::Decrement),
            '.' => tokens.push(Token::Write),
            ',' => tokens.push(Token::Read),
            '[' => tokens.push(Token::LoopBegin),
            ']' => tokens.push(Token::LoopEnd),
            _ => {},
        }
        i = i + 1;
    }
    proof {
        assert(source@.take(n as int) =~= source@);
    }
    tokens
}

} // verus!
