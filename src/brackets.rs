//! Forward bracket matching, used when a loop is entered on a zero cell.
use vstd::prelude::*;
use crate::error::Problem;

verus! {

/// The loop-open instruction.
pub const LOOP_OPEN: u8 = 0x5b;

/// The loop-close instruction.
pub const LOOP_CLOSE: u8 = 0x5d;

/// Number of occurrences of `b` among the first `k` bytes of `t`.
pub open spec fn count_in_prefix(t: Seq<u8>, k: int, b: u8) -> nat
    recommends
        0 <= k <= t.len(),
    decreases k,
{
    if k <= 0 {
        0
    } else {
        count_in_prefix(t, k - 1, b) + if t[k - 1] == b { 1nat } else { 0nat }
    }
}

/// Nesting depth after scanning the first `k` bytes of `t`: loop-opens seen
/// minus loop-closes seen.
pub open spec fn depth_after(t: Seq<u8>, k: int) -> int {
    count_in_prefix(t, k, LOOP_OPEN) - count_in_prefix(t, k, LOOP_CLOSE)
}

/// Index `i` holds a loop-close that brings the nesting depth back to zero.
pub open spec fn closes_at(t: Seq<u8>, i: int) -> bool {
    0 <= i < t.len() && t[i] == LOOP_CLOSE && depth_after(t, i + 1) == 0
}

/// `i` is the first index of `t` that closes the loop opened at its start.
pub open spec fn is_match(t: Seq<u8>, i: int) -> bool {
    closes_at(t, i) && forall|j: int| 0 <= j < i ==> !#[trigger] closes_at(t, j)
}

/// The loop opened at the start of `t` has a matching close in `t`.
pub open spec fn has_match(t: Seq<u8>) -> bool {
    exists|i: int| closes_at(t, i)
}

/// Finds, in `text` (which starts at a loop-open), the index of the
/// loop-close that matches it, honouring nesting.
pub fn skip_loop(text: &[u8]) -> (r: Result<usize, Problem>)
    ensures
        match r {
            Ok(i) => is_match(text@, i as int),
            Err(e) => e == Problem::UnclosedLoop && !has_match(text@),
        },
{
    let mut opens: usize = 0;
    let mut closes: usize = 0;
    let mut i: usize = 0;
    while i < text.len()
        invariant
            0 <= i <= text@.len(),
            opens as nat == count_in_prefix(text@, i as int, LOOP_OPEN),
            closes as nat == count_in_prefix(text@, i as int, LOOP_CLOSE),
            opens + closes <= i,
            forall|j: int| 0 <= j < i ==> !#[trigger] closes_at(text@, j),
        decreases text@.len() - i,
    {
        let c = text[i];
        if c == LOOP_OPEN {
            opens = opens + 1;
        } else if c == LOOP_CLOSE {
            closes = closes + 1;
            if opens == closes {
                assert(closes_at(text@, i as int));
                return Ok(i);
            }
        }
        assert(!closes_at(text@, i as int));
        i = i + 1;
    }
    Err(Problem::UnclosedLoop)
}

} // verus!
