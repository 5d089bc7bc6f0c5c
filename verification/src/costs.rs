//! Cost constants and the optional free-insertion range.
//!
//! Insertions, deletions and substitutions all cost `OP_COST`.  A bounded
//! move or swap of nearby equal pitches costs `MOVE_SWAP_COST`.  Two
//! discounts cost `REDUCED_COST` instead of `OP_COST`: an insertion whose
//! target index falls inside a caller-supplied half-open range, and a
//! deletion taken in the final target column.  A malformed range (empty, or
//! empty once clamped to the target length) silently disables the discount.

use vstd::prelude::*;

verus! {

/// Width of the search window for moves and swaps.
pub const MAX_MOVE_SWAP: usize = 5;

/// Cost of moving or swapping nearby equal pitches.
pub const MOVE_SWAP_COST: i64 = 2;

/// Base cost of a substitution, insertion or deletion.
pub const OP_COST: i64 = 5;

/// Discounted cost for a free-range insertion or a trailing deletion.
pub const REDUCED_COST: i64 = 1;

/// The caller's free-insertion range, clamped to the target length; `None`
/// when the range is absent or does not survive clamping.
pub open spec fn spec_clamp_range(range: Option<(usize, usize)>, m: int) -> Option<(usize, usize)> {
    match range {
        Option::None => Option::None,
        Option::Some((start, end)) => if start >= end {
            Option::None
        } else {
            let start2 = if (start as int) < m { start } else { m as usize };
            let end2 = if (end as int) < m { end } else { m as usize };
            if start2 >= end2 {
                Option::None
            } else {
                Option::Some((start2, end2))
            }
        },
    }
}

/// Clamps the caller's free-insertion range to the target length.
pub fn clamp_range(range: Option<(usize, usize)>, m: usize) -> (r: Option<(usize, usize)>)
    ensures
        r == spec_clamp_range(range, m as int),
{
    match range {
        Option::None => Option::None,
        Option::Some((start, end)) => {
            if start >= end {
                Option::None
            } else {
                let start2 = if start < m { start } else { m };
                let end2 = if end < m { end } else { m };
                if start2 >= end2 {
                    Option::None
                } else {
                    Option::Some((start2, end2))
                }
            }
        },
    }
}

/// Whether target index `idx` falls inside the clamped free-insertion range.
pub open spec fn spec_free_insert(idx: int, clamped: Option<(usize, usize)>) -> bool {
    match clamped {
        Option::None => false,
        Option::Some((start, end)) => start <= idx && idx < end,
    }
}

/// Whether target index `idx` falls inside the clamped free-insertion range.
pub fn free_insert(idx: usize, clamped: Option<(usize, usize)>) -> (r: bool)
    ensures
        r == spec_free_insert(idx as int, clamped),
{
    match clamped {
        Option::None => false,
        Option::Some((start, end)) => start <= idx && idx < end,
    }
}

/// Cost of inserting the target pitch at index `idx`.
pub open spec fn spec_insertion_cost(idx: int, clamped: Option<(usize, usize)>) -> int {
    if spec_free_insert(idx, clamped) {
        REDUCED_COST as int
    } else {
        OP_COST as int
    }
}

/// Cost of inserting the target pitch at index `idx`.
pub fn insertion_cost(idx: usize, clamped: Option<(usize, usize)>) -> (c: i64)
    ensures
        c == spec_insertion_cost(idx as int, clamped),
        c == REDUCED_COST || c == OP_COST,
{
    if free_insert(idx, clamped) {
        REDUCED_COST
    } else {
        OP_COST
    }
}

/// Cost of deleting a source pitch while at target column `j`: the deletion
/// in the final column `m` is discounted.
pub open spec fn spec_deletion_cost(j: int, m: int) -> int {
    if j == m {
        REDUCED_COST as int
    } else {
        OP_COST as int
    }
}

/// Cost of deleting a source pitch while at target column `j` of `m`.
pub fn deletion_cost(j: usize, m: usize) -> (c: i64)
    ensures
        c == spec_deletion_cost(j as int, m as int),
        c == REDUCED_COST || c == OP_COST,
{
    if j == m {
        REDUCED_COST
    } else {
        OP_COST
    }
}

/// Cost of keeping source position `i` against target position `j`
/// (1-indexed): zero on an exact pitch match, `OP_COST` for a substitution.
pub open spec fn spec_substitution_cost(s: Seq<i64>, t: Seq<i64>, i: int, j: int) -> int {
    if s[i - 1] == t[j - 1] {
        0
    } else {
        OP_COST as int
    }
}

} // verus!
