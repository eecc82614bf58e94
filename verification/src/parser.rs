//! The parser: a flat token sequence to a nested instruction tree.
//!
//! All specifications speak of a half-open region `[lo, hi)` of one
//! token sequence `ts`, so that results of parsing sub-regions compose
//! without reindexing. The central notions are the running bracket depth
//! of a region, `dsum`, and an unmatched closing bracket, `viol_at`.

use vstd::prelude::*;

use crate::ast::InsnView;
use crate::ast::Instruction;
use crate::ast::ParseError;
use crate::ast::Token;
use crate::ast::insn_view;
use crate::ast::insns_view;
use crate::ast::lemma_insns_view_index;

verus! {

/// The contribution of one token to the bracket depth.
pub open spec fn tdelta(t: Token) -> int {
    match t {
        Token::LoopBegin => 1,
        Token::LoopEnd => -1,
        _ => 0,
    }
}

/// The bracket depth of the region `[lo, hi)` of `ts`: the number of
/// `[` minus the number of `]` in it.
pub open spec fn dsum(ts: Seq<Token>, lo: int, hi: int) -> int
    decreases hi - lo,
{
    if lo >= hi {
        0
    } else {
        tdelta(ts[lo]) + dsum(ts, lo + 1, hi)
    }
}

/// Token `i` is a `]` with no unmatched `[` before it in a scan that
/// starts at `lo`.
pub open spec fn viol_at(ts: Seq<Token>, lo: int, i: int) -> bool {
    ts[i] == Token::LoopEnd && dsum(ts, lo, i) == 0
}

/// The region `[lo, hi)` holds an unmatched closing bracket.
pub open spec fn has_viol(ts: Seq<Token>, lo: int, hi: int) -> bool {
    exists|i: int| lo <= i < hi && viol_at(ts, lo, i)
}

/// The brackets of the region `[lo, hi)` are balanced: every `]` closes
/// an earlier `[`, and every `[` is closed.
pub open spec fn balanced(ts: Seq<Token>, lo: int, hi: int) -> bool {
    dsum(ts, lo, hi) == 0 && !has_viol(ts, lo, hi)
}

/// `j` is the closing bracket that matches an opening bracket at `lo`:
/// the first unmatched `]` of the scan that starts just after `lo`.
pub open spec fn match_close(ts: Seq<Token>, lo: int, j: int, hi: int) -> bool {
    lo < j < hi && viol_at(ts, lo + 1, j) && (forall|m: int|
        lo + 1 <= m < j ==> !(#[trigger] viol_at(ts, lo + 1, m)))
}

/// The leaf instruction of a non-bracket token.
pub open spec fn leaf_view(t: Token) -> InsnView {
    match t {
        Token::IncrementPointer => InsnView::IncrementPointer,
        Token::DecrementPointer => InsnView::DecrementPointer,
        Token::Increment => InsnView::Increment,
        Token::Decrement => InsnView::Decrement,
        Token::Write => InsnView::Write,
        Token::Read => InsnView::Read,
        _ => InsnView::Write,
    }
}

/// The instruction tree of the region `[lo, hi)`, meaningful when the
/// region is balanced: each non-bracket token becomes its leaf, and each
/// `[` with its matching `]` becomes a loop node over the tree of the
/// tokens strictly between them.
pub open spec fn parse_ok(ts: Seq<Token>, lo: int, hi: int) -> Seq<InsnView>
    decreases hi - lo,
{
    if lo >= hi {
        Seq::empty()
    } else if ts[lo] == Token::LoopBegin {
        if exists|j: int| match_close(ts, lo, j, hi) {
            let j = choose|j: int| match_close(ts, lo, j, hi);
            seq![InsnView::Loop(parse_ok(ts, lo + 1, j))] + parse_ok(ts, j + 1, hi)
        } else {
            Seq::empty()
        }
    } else if ts[lo] == Token::LoopEnd {
        Seq::empty()
    } else {
        seq![leaf_view(ts[lo])] + parse_ok(ts, lo + 1, hi)
    }
}

/// Depth is additive: the depth of a region is the sum of the depths of
/// its two parts.
pub proof fn lemma_dsum_split(ts: Seq<Token>, lo: int, mid: int, hi: int)
    requires
        lo <= mid <= hi,
    ensures
        dsum(ts, lo, hi) == dsum(ts, lo, mid) + dsum(ts, mid, hi),
    decreases mid - lo,
{
    if lo < mid {
        lemma_dsum_split(ts, lo + 1, mid, hi);
    }
}

/// The depth of a single token is its own contribution.
pub proof fn lemma_dsum_one(ts: Seq<Token>, i: int)
    ensures
        dsum(ts, i, i + 1) == tdelta(ts[i]),
{
    assert(dsum(ts, i + 1, i + 1) == 0);
}

/// There is at most one closing bracket matching a given opening one.
pub proof fn lemma_match_close_unique(ts: Seq<Token>, lo: int, j1: int, j2: int, hi: int)
    requires
        match_close(ts, lo, j1, hi),
        match_close(ts, lo, j2, hi),
    ensures
        j1 == j2,
{
    if j1 < j2 {
        assert(!viol_at(ts, lo + 1, j1));
    }
    if j2 < j1 {
        assert(!viol_at(ts, lo + 1, j2));
    }
}

/// In a scan from `lo` whose depth is at least 1 at position `k` and 0
/// at `hi`, the depth first returns to 0 immediately after some `]` at
/// or beyond `k`.
proof fn lemma_first_return(ts: Seq<Token>, lo: int, k: int, hi: int) -> (j: int)
    requires
        lo <= k <= hi,
        dsum(ts, lo, k) >= 1,
        dsum(ts, lo, hi) == 0,
    ensures
        k <= j < hi,
        ts[j] == Token::LoopEnd,
        dsum(ts, lo, j) == 1,
        dsum(ts, lo, j + 1) == 0,
        forall|m: int| k <= m <= j ==> dsum(ts, lo, m) >= 1,
    decreases hi - k,
{
    assert(k < hi);
    lemma_dsum_one(ts, k);
    lemma_dsum_split(ts, lo, k, k + 1);
    if dsum(ts, lo, k + 1) == 0 {
        assert(tdelta(ts[k]) == -1);
        k
    } else {
        assert(dsum(ts, lo, k + 1) >= 1);
        lemma_first_return(ts, lo, k + 1, hi)
    }
}

/// A balanced region that starts with `[` holds the matching `]`.
pub proof fn lemma_match_exists(ts: Seq<Token>, lo: int, hi: int) -> (j: int)
    requires
        lo < hi,
        ts[lo] == Token::LoopBegin,
        dsum(ts, lo, hi) == 0,
    ensures
        match_close(ts, lo, j, hi),
        dsum(ts, lo, j + 1) == 0,
        forall|m: int| lo < m <= j ==> dsum(ts, lo, m) >= 1,
{
    lemma_dsum_split(ts, lo, lo + 1, hi);
    assert(dsum(ts, lo, lo + 1) == 1);
    let j = lemma_first_return(ts, lo, lo + 1, hi);
    assert forall|m: int| lo + 1 <= m < j implies !(#[trigger] viol_at(ts, lo + 1, m)) by {
        if ts[m] == Token::LoopEnd && dsum(ts, lo + 1, m) == 0 {
            lemma_dsum_split(ts, lo, lo + 1, m);
            assert(dsum(ts, lo, m) == 1);
            lemma_dsum_one(ts, m);
            lemma_dsum_split(ts, lo, m, m + 1);
            assert(dsum(ts, lo, m + 1) == 0);
            assert(false);
        }
    }
    lemma_dsum_split(ts, lo, lo + 1, j);
    assert(viol_at(ts, lo + 1, j));
    j
}

/// Two scans that differ only by a balanced leading region agree on
/// which later tokens are unmatched closing brackets.
pub proof fn lemma_viol_shift(ts: Seq<Token>, lo: int, mid: int)
    requires
        lo <= mid,
        dsum(ts, lo, mid) == 0,
    ensures
        forall|m: int|
            #![trigger viol_at(ts, lo, m)]
            #![trigger viol_at(ts, mid, m)]
            mid <= m ==> (viol_at(ts, lo, m) <==> viol_at(ts, mid, m)),
{
    assert forall|m: int|
        #![trigger viol_at(ts, lo, m)]
        #![trigger viol_at(ts, mid, m)]
        mid <= m implies (viol_at(ts, lo, m) <==> viol_at(ts, mid, m)) by {
        lemma_dsum_split(ts, lo, mid, m);
    }
}

/// How many `[` the region `[lo, hi)` holds.
pub open spec fn count_opens(ts: Seq<Token>, lo: int, hi: int) -> nat
    decreases hi - lo,
{
    if lo >= hi {
        0
    } else {
        (if ts[lo] == Token::LoopBegin {
            1nat
        } else {
            0nat
        }) + count_opens(ts, lo + 1, hi)
    }
}

/// How many `]` the region `[lo, hi)` holds.
pub open spec fn count_closes(ts: Seq<Token>, lo: int, hi: int) -> nat
    decreases hi - lo,
{
    if lo >= hi {
        0
    } else {
        (if ts[lo] == Token::LoopEnd {
            1nat
        } else {
            0nat
        }) + count_closes(ts, lo + 1, hi)
    }
}

/// How many loop nodes a tree holds, counted recursively.
pub open spec fn loop_nodes(s: Seq<InsnView>) -> nat
    decreases s,
{
    if s.len() == 0 {
        0
    } else {
        node_loops(s[0]) + loop_nodes(s.subrange(1, s.len() as int))
    }
}

/// How many loop nodes one instruction holds, itself included.
pub open spec fn node_loops(v: InsnView) -> nat
    decreases v,
{
    match v {
        InsnView::Loop(body) => 1 + loop_nodes(body),
        _ => 0,
    }
}

/// Bracket counts are additive over a split of a region.
pub proof fn lemma_counts_split(ts: Seq<Token>, lo: int, mid: int, hi: int)
    requires
        lo <= mid <= hi,
    ensures
        count_opens(ts, lo, hi) == count_opens(ts, lo, mid) + count_opens(ts, mid, hi),
        count_closes(ts, lo, hi) == count_closes(ts, lo, mid) + count_closes(ts, mid, hi),
    decreases mid - lo,
{
    if lo < mid {
        lemma_counts_split(ts, lo + 1, mid, hi);
    }
}

/// The depth of a region is its count of `[` minus its count of `]`.
pub proof fn lemma_dsum_counts(ts: Seq<Token>, lo: int, hi: int)
    ensures
        dsum(ts, lo, hi) == count_opens(ts, lo, hi) - count_closes(ts, lo, hi),
    decreases hi - lo,
{
    if lo < hi {
        lemma_dsum_counts(ts, lo + 1, hi);
    }
}

/// On a balanced region the parser succeeds — that is the parsing
/// functions' own contract — and the tree it returns holds exactly one
/// loop node per bracket pair: the loop nodes, counted recursively,
/// equal the count of `[`, which equals the count of `]`.
pub proof fn lemma_balanced_loop_count(ts: Seq<Token>, lo: int, hi: int)
    requires
        0 <= lo <= hi <= ts.len(),
        balanced(ts, lo, hi),
    ensures
        loop_nodes(parse_ok(ts, lo, hi)) == count_opens(ts, lo, hi),
        count_opens(ts, lo, hi) == count_closes(ts, lo, hi),
    decreases hi - lo,
{
    lemma_dsum_counts(ts, lo, hi);
    if lo >= hi {
    } else if ts[lo] == Token::LoopBegin {
        let j = lemma_match_exists(ts, lo, hi);
        let jj = choose|jj: int| match_close(ts, lo, jj, hi);
        lemma_match_close_unique(ts, lo, jj, j, hi);
        lemma_dsum_split(ts, lo, lo + 1, j);
        assert(dsum(ts, lo + 1, j) == 0);
        assert(balanced(ts, lo + 1, j));
        lemma_dsum_split(ts, lo, j + 1, hi);
        lemma_viol_shift(ts, lo, j + 1);
        assert forall|i: int| j + 1 <= i < hi implies !(#[trigger] viol_at(ts, j + 1, i)) by {
            assert(!viol_at(ts, lo, i));
        }
        assert(balanced(ts, j + 1, hi));
        lemma_balanced_loop_count(ts, lo + 1, j);
        lemma_balanced_loop_count(ts, j + 1, hi);
        let inner = parse_ok(ts, lo + 1, j);
        let tail = parse_ok(ts, j + 1, hi);
        let whole = seq![InsnView::Loop(inner)] + tail;
        assert(parse_ok(ts, lo, hi) == whole);
        assert(whole.subrange(1, whole.len() as int) =~= tail);
        assert(whole[0] == InsnView::Loop(inner));
        assert(node_loops(InsnView::Loop(inner)) == 1 + loop_nodes(inner));
        assert(loop_nodes(whole) == 1 + loop_nodes(inner) + loop_nodes(tail));
        lemma_counts_split(ts, lo + 1, j, hi);
        lemma_counts_split(ts, j, j + 1, hi);
        assert(count_opens(ts, j, j + 1) == 0);
    } else if ts[lo] == Token::LoopEnd {
        assert(viol_at(ts, lo, lo));
        assert(false);
    } else {
        lemma_dsum_one(ts, lo);
        lemma_dsum_split(ts, lo, lo + 1, hi);
        lemma_viol_shift(ts, lo, lo + 1);
        assert forall|i: int| lo + 1 <= i < hi implies !(#[trigger] viol_at(ts, lo + 1, i)) by {
            assert(!viol_at(ts, lo, i));
        }
        assert(balanced(ts, lo + 1, hi));
        lemma_balanced_loop_count(ts, lo + 1, hi);
        let tail = parse_ok(ts, lo + 1, hi);
        let whole = seq![leaf_view(ts[lo])] + tail;
        assert(parse_ok(ts, lo, hi) == whole);
        assert(whole.subrange(1, whole.len() as int) =~= tail);
        assert(node_loops(leaf_view(ts[lo])) == 0);
    }
}

/// Parsing is a function of the token sequence alone: together with the
/// parsing functions' own contracts, any two trees parsed from the same
/// token sequence are structurally identical.
pub proof fn lemma_parse_deterministic(ts: Seq<Token>, a: Seq<InsnView>, b: Seq<InsnView>)
    requires
        a == parse_ok(ts, 0, ts.len() as int),
        b == parse_ok(ts, 0, ts.len() as int),
    ensures
        a == b,
{
}

/// The leaf instruction of a non-bracket token, as a tree node.
fn make_leaf(t: Token) -> (r: Instruction)
    ensures
        insn_view(r) == leaf_view(t),
{
    match t {
        Token::IncrementPointer => Instruction::IncrementPointer,
        Token::DecrementPointer => Instruction::DecrementPointer,
        Token::Increment => Instruction::Increment,
        Token::Decrement => Instruction::Decrement,
        Token::Read => Instruction::Read,
        _ => Instruction::Write,
    }
}

/// Parse the region `[lo, hi)` of `tokens`.
///
/// The region parses to a tree exactly when its brackets are balanced.
/// An unmatched `]` is reported at the first index where one stands; an
/// unmatched `[` is reported, after the full scan, with the count of
/// brackets left open. No partial tree is ever returned on an error.
pub fn parse_range(tokens: &Vec<Token>, lo: usize, hi: usize) -> (r: Result<
    Vec<Instruction>,
    ParseError,
>)
    requires
        lo <= hi <= tokens@.len(),
    ensures
        match r {
            Ok(v) => balanced(tokens@, lo as int, hi as int) && insns_view(v@) == parse_ok(
                tokens@,
                lo as int,
                hi as int,
            ),
            Err(ParseError::UnmatchedClose { pos }) => lo <= pos < hi && viol_at(
                tokens@,
                lo as int,
                pos as int,
            ) && (forall|m: int|
                lo <= m < pos ==> !(#[trigger] viol_at(tokens@, lo as int, m))),
            Err(ParseError::UnmatchedOpen { open }) => !has_viol(tokens@, lo as int, hi as int)
                && dsum(tokens@, lo as int, hi as int) == open as int && open > 0,
        },
    decreases hi - lo,
{
    let ghost ts = tokens@;
    if lo == hi {
        let v: Vec<Instruction> = Vec::new();
        proof {
            assert(insns_view(v@) =~= parse_ok(ts, lo as int, hi as int));
        }
        return Ok(v);
    }
    let t = tokens[lo];
    if t == Token::LoopEnd {
        return Err(ParseError::UnmatchedClose { pos: lo });
    }
    if t != Token::LoopBegin {
        // A leaf token: its depth contribution is zero, so the rest of
        // the region scans exactly as the whole one does.
        proof {
            lemma_dsum_one(ts, lo as int);
            lemma_dsum_split(ts, lo as int, lo + 1, hi as int);
            lemma_viol_shift(ts, lo as int, lo + 1);
        }
        match parse_range(tokens, lo + 1, hi) {
            Ok(mut rest) => {
                let ghost tail = rest@;
                let mut v: Vec<Instruction> = Vec::new();
                v.push(make_leaf(t));
                v.append(&mut rest);
                proof {
                    assert(v@ =~= seq![v@[0]] + tail);
                    assert(v@.subrange(1, v@.len() as int) =~= tail);
                    assert(insns_view(v@) == seq![leaf_view(t)] + insns_view(tail));
                }
                Ok(v)
            },
            Err(e) => Err(e),
        }
    } else {
        // An opening bracket: scan forward for the matching `]`,
        // counting depth.
        proof {
            lemma_dsum_one(ts, lo as int);
        }
        let mut j = lo + 1;
        let mut depth: usize = 1;
        while j < hi && depth > 0
            invariant
                lo + 1 <= j <= hi <= ts.len(),
                ts == tokens@,
                ts[lo as int] == Token::LoopBegin,
                depth as int == dsum(ts, lo as int, j as int),
                depth as int <= j - lo,
                forall|m: int| lo < m < j ==> #[trigger] dsum(ts, lo as int, m) >= 1,
                depth == 0 ==> ts[j - 1] == Token::LoopEnd,
            decreases hi - j,
        {
            let tj = tokens[j];
            proof {
                lemma_dsum_one(ts, j as int);
                lemma_dsum_split(ts, lo as int, j as int, j + 1);
            }
            if tj == Token::LoopBegin {
                depth = depth + 1;
            } else if tj == Token::LoopEnd {
                depth = depth - 1;
            }
            j = j + 1;
        }
        if depth > 0 {
            // The scan ran out with brackets still open: the whole
            // region holds no unmatched `]`, and its depth is `depth`.
            proof {
                assert forall|i: int| lo <= i < hi implies !(#[trigger] viol_at(
                    ts,
                    lo as int,
                    i,
                )) by {
                    if lo < i {
                        assert(dsum(ts, lo as int, i) >= 1);
                    }
                }
            }
            return Err(ParseError::UnmatchedOpen { open: depth });
        }
        // The matching `]` stands at j - 1.
        let cj = j - 1;
        proof {
            lemma_dsum_one(ts, cj as int);
            lemma_dsum_split(ts, lo as int, cj as int, j as int);
            assert(dsum(ts, lo as int, cj as int) == 1);
            lemma_dsum_split(ts, lo as int, lo + 1, cj as int);
            assert(viol_at(ts, lo + 1, cj as int));
            assert forall|m: int| lo + 1 <= m < cj implies !(#[trigger] viol_at(
                ts,
                lo + 1,
                m,
            )) by {
                if ts[m] == Token::LoopEnd && dsum(ts, lo + 1, m) == 0 {
                    lemma_dsum_split(ts, lo as int, lo + 1, m);
                    lemma_dsum_one(ts, m);
                    lemma_dsum_split(ts, lo as int, m, m + 1);
                    assert(dsum(ts, lo as int, m + 1) == 0);
                    assert(false);
                }
            }
            assert(match_close(ts, lo as int, cj as int, hi as int));
            lemma_viol_shift(ts, lo as int, j as int);
        }
        let body = match parse_range(tokens, lo + 1, cj) {
            Ok(b) => b,
            Err(e) => {
                // The region between matched brackets is balanced, so
                // this cannot happen.
                proof {
                    assert(balanced(ts, lo + 1, cj as int)) by {
                        assert forall|i: int| lo + 1 <= i < cj implies !(#[trigger] viol_at(
                            ts,
                            lo + 1,
                            i,
                        )) by {}
                    }
                    assert(false);
                }
                return Err(e);
            },
        };
        match parse_range(tokens, j, hi) {
            Ok(mut rest) => {
                let ghost tail = rest@;
                let ghost bv = body@;
                let mut v: Vec<Instruction> = Vec::new();
                v.push(Instruction::Loop(body));
                v.append(&mut rest);
                proof {
                    assert(v@ =~= seq![v@[0]] + tail);
                    assert(v@.subrange(1, v@.len() as int) =~= tail);
                    let jj = choose|jj: int| match_close(ts, lo as int, jj, hi as int);
                    lemma_match_close_unique(ts, lo as int, jj, cj as int, hi as int);
                    assert(insn_view(v@[0]) == InsnView::Loop(insns_view(bv)));
                    assert(insns_view(v@) == seq![InsnView::Loop(insns_view(bv))] + insns_view(
                        tail,
                    ));
                    assert forall|i: int| lo <= i < hi implies !(#[trigger] viol_at(
                        ts,
                        lo as int,
                        i,
                    )) by {
                        if lo < i < j {
                            assert(dsum(ts, lo as int, i) >= 1);
                        }
                    }
                    lemma_dsum_split(ts, lo as int, j as int, hi as int);
                }
                Ok(v)
            },
            Err(e) => {
                proof {
                    lemma_dsum_split(ts, lo as int, j as int, hi as int);
                    assert forall|m: int| lo <= m < j implies !(#[trigger] viol_at(
                        ts,
                        lo as int,
                        m,
                    )) by {
                        if lo < m {
                            assert(dsum(ts, lo as int, m) >= 1);
                        }
                    }
                }
                Err(e)
            },
        }
    }
}

/// Parse a whole token sequence into an instruction tree.
///
/// Parsing succeeds exactly when the brackets are balanced. A `]` with
/// no unmatched `[` before it is reported at its index, and the scan
/// stops there; `[`s that the full scan leaves unmatched are reported
/// after it, with their count.
pub fn parse_tokens(tokens: Vec<Token>) -> (r: Result<Vec<Instruction>, ParseError>)
    ensures
        match r {
            Ok(v) => balanced(tokens@, 0, tokens@.len() as int) && insns_view(v@) == parse_ok(
                tokens@,
                0,
                tokens@.len() as int,
            ),
            Err(ParseError::UnmatchedClose { pos }) => pos < tokens@.len() && viol_at(
                tokens@,
                0,
                pos as int,
            ) && (forall|m: int| 0 <= m < pos ==> !(#[trigger] viol_at(tokens@, 0, m))),
            Err(ParseError::UnmatchedOpen { open }) => !has_viol(tokens@, 0, tokens@.len() as int)
                && dsum(tokens@, 0, tokens@.len() as int) == open as int && open > 0,
        },
        (r matches Ok(_)) <==> balanced(tokens@, 0, tokens@.len() as int),
        (r matches Err(ParseError::UnmatchedClose { pos: _ })) <==> has_viol(
            tokens@,
            0,
            tokens@.len() as int,
        ),
{
    let n = tokens.len();
    parse_range(&tokens, 0, n)
}

} // verus!
