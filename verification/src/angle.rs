//! The balanced-angle scanner. `<` and `>` are ordinary punctuation, so a
//! generic clause is delimited by counting depth: `<` opens a level, `>`
//! closes one, and a group is a single token whose interior never counts.
//! A punctuation token holds one character, so `>>` arrives as two closers,
//! and each is counted by itself.

use crate::error::ParseError;
use crate::token::{copy_span, view_tokens, SpecToken, Token};
use vstd::prelude::*;

verus! {

/// The number of angle runs that are open after the tokens at `from..to`,
/// none being open before them: `<` opens one, `>` closes the innermost, and
/// a `>` that finds none open closes nothing.
pub open spec fn angle_depth(tokens: Seq<SpecToken>, from: int, to: int) -> int
    decreases to - from,
{
    if to <= from {
        0
    } else {
        let before = angle_depth(tokens, from, to - 1);
        if tokens[to - 1].is_punct('<') {
            before + 1
        } else if tokens[to - 1].is_punct('>') && before > 0 {
            before - 1
        } else {
            before
        }
    }
}

/// The `n` tokens at `start` form one balanced run: the first is `<`, the
/// depth is back at zero after the last, and at no point before.
pub open spec fn closes_at(tokens: Seq<SpecToken>, start: int, n: int) -> bool {
    &&& 0 <= start
    &&& 0 < n
    &&& start + n <= tokens.len()
    &&& tokens[start].is_punct('<')
    &&& angle_depth(tokens, start, start + n) == 0
    &&& forall|end: int| start < end < start + n ==> angle_depth(tokens, start, end) > 0
}

/// The length of the balanced run that begins at `start`, both angle tokens
/// counted; none where `start` does not hold a `<` or the input ends before
/// the depth returns to zero.
pub open spec fn angle_run(tokens: Seq<SpecToken>, start: int) -> Option<int> {
    if exists|n: int| closes_at(tokens, start, n) {
        Some(choose|n: int| closes_at(tokens, start, n))
    } else {
        None
    }
}

/// A balanced run has one length only.
pub proof fn lemma_run_unique(tokens: Seq<SpecToken>, start: int, n: int, m: int)
    requires
        closes_at(tokens, start, n),
        closes_at(tokens, start, m),
    ensures
        n == m,
{
    if n < m {
        assert(angle_depth(tokens, start, start + n) > 0);
    } else if m < n {
        assert(angle_depth(tokens, start, start + m) > 0);
    }
}

/// A run that closes after `n` tokens is the run that `angle_run` names.
pub proof fn lemma_run_found(tokens: Seq<SpecToken>, start: int, n: int)
    requires
        closes_at(tokens, start, n),
    ensures
        angle_run(tokens, start) == Some(n),
{
    let m = choose|m: int| closes_at(tokens, start, m);
    lemma_run_unique(tokens, start, n, m);
}

/// A run is at least the two angle tokens long, and its last token is `>`.
pub proof fn lemma_run_shape(tokens: Seq<SpecToken>, start: int, n: int)
    requires
        closes_at(tokens, start, n),
    ensures
        n >= 2,
        tokens[start + n - 1].is_punct('>'),
{
    assert(angle_depth(tokens, start, start + 1) == angle_depth(tokens, start, start) + 1);
    if n > 1 {
        assert(angle_depth(tokens, start, start + (n - 1)) > 0);
    }
}

/// Where no `<` stands at `start`, there is no run and nothing is consumed.
pub proof fn law_no_opener_no_run(tokens: Seq<SpecToken>, start: int)
    requires
        start < 0 || start >= tokens.len() || !tokens[start].is_punct('<'),
    ensures
        angle_run(tokens, start) is None,
{
}

/// Depth depends on the tokens counted and on nothing around them: equal
/// stretches of two sequences have equal depth.
pub proof fn lemma_depth_shift(
    a: Seq<SpecToken>,
    from_a: int,
    b: Seq<SpecToken>,
    from_b: int,
    n: int,
)
    requires
        0 <= n,
        0 <= from_a,
        from_a + n <= a.len(),
        0 <= from_b,
        from_b + n <= b.len(),
        a.subrange(from_a, from_a + n) == b.subrange(from_b, from_b + n),
    ensures
        angle_depth(a, from_a, from_a + n) == angle_depth(b, from_b, from_b + n),
    decreases n,
{
    if n > 0 {
        let sa = a.subrange(from_a, from_a + n);
        let sb = b.subrange(from_b, from_b + n);
        assert(a.subrange(from_a, from_a + n - 1) =~= sa.subrange(0, n - 1));
        assert(b.subrange(from_b, from_b + n - 1) =~= sb.subrange(0, n - 1));
        lemma_depth_shift(a, from_a, b, from_b, n - 1);
        assert(a[from_a + n - 1] == sa[n - 1]);
        assert(b[from_b + n - 1] == sb[n - 1]);
    }
}

/// Scans the balanced run that begins with the `<` at `start`. On success
/// returns the interior of the run, without its two angle tokens, and the
/// number of tokens consumed, both angle tokens counted. Fails when the input
/// ends before the depth returns to zero.
pub fn scan_angle(tokens: &Vec<Token>, start: usize) -> (r: Result<(Vec<Token>, usize), ParseError>)
    requires
        start < tokens.len(),
        tokens[start as int]@.is_punct('<'),
    ensures
        match r {
            Ok((interior, consumed)) => {
                &&& angle_run(view_tokens(tokens@), start as int) == Some(consumed as int)
                &&& view_tokens(interior@) == view_tokens(tokens@).subrange(
                    start + 1,
                    start + consumed - 1,
                )
            },
            Err(e) => {
                &&& e == ParseError::UnbalancedGenerics
                &&& angle_run(view_tokens(tokens@), start as int) is None
            },
        },
{
    let ghost s = view_tokens(tokens@);
    let mut depth: usize = 1;
    let mut i: usize = start + 1;
    assert(angle_depth(s, start as int, start + 1) == angle_depth(s, start as int, start as int)
        + 1);
    while i < tokens.len()
        invariant
            s == view_tokens(tokens@),
            start < i <= tokens.len(),
            s[start as int].is_punct('<'),
            0 < depth <= i - start,
            depth == angle_depth(s, start as int, i as int),
            forall|end: int| start < end <= i ==> angle_depth(s, start as int, end) > 0,
        decreases tokens.len() - i,
    {
        assert(angle_depth(s, start as int, i as int) == angle_depth(s, start as int, i + 1 - 1));
        if tokens[i].is_punct('<') {
            depth += 1;
        } else if tokens[i].is_punct('>') {
            depth -= 1;
            if depth == 0 {
                let consumed: usize = i + 1 - start;
                proof {
                    assert(closes_at(s, start as int, consumed as int));
                    lemma_run_found(s, start as int, consumed as int);
                }
                let interior = copy_span(tokens, start + 1, i);
                return Ok((interior, consumed));
            }
        }
        i += 1;
    }
    proof {
        assert forall|n: int| !closes_at(s, start as int, n) by {
            if 0 < n && start + n <= s.len() {
                assert(angle_depth(s, start as int, start + n) > 0);
            }
        }
    }
    Err(ParseError::UnbalancedGenerics)
}

/// Reads a generic clause at the front of `tokens`. Where no `<` stands
/// there, returns none and consumes nothing. Where one does, returns the
/// whole clause, angle tokens included, and its length; and fails where that
/// `<` opens a run that the input never closes.
pub fn parse_generics(tokens: &Vec<Token>) -> (r: Result<(Option<Vec<Token>>, usize), ParseError>)
    ensures
        match r {
            Ok((None, n)) => {
                &&& n == 0
                &&& (tokens@.len() == 0 || !view_tokens(tokens@)[0].is_punct('<'))
            },
            Ok((Some(clause), n)) => {
                &&& angle_run(view_tokens(tokens@), 0) == Some(n as int)
                &&& view_tokens(clause@) == view_tokens(tokens@).subrange(0, n as int)
            },
            Err(e) => {
                &&& e == ParseError::UnbalancedGenerics
                &&& tokens@.len() > 0
                &&& view_tokens(tokens@)[0].is_punct('<')
                &&& angle_run(view_tokens(tokens@), 0) is None
            },
        },
{
    if tokens.len() == 0 || !tokens[0].is_punct('<') {
        return Ok((None, 0));
    }
    match scan_angle(tokens, 0) {
        Ok((_, consumed)) => {
            proof {
                let n = consumed as int;
                assert(closes_at(view_tokens(tokens@), 0, n)) by {
                    let m = choose|m: int| closes_at(view_tokens(tokens@), 0, m);
                    assert(m == n);
                }
            }
            Ok((Some(copy_span(tokens, 0, consumed)), consumed))
        },
        Err(e) => Err(e),
    }
}

} // verus!
