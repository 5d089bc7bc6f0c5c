//! The mathematical model of the alignment cost grid.
//!
//! `grid_cost(s, t, clamped, i, j)` is the minimum cost of explaining the
//! first `i` source pitches with the first `j` target pitches.  Row 0 grows
//! by insertion costs, column 0 by deletions at `OP_COST` each, and an
//! interior cell is the minimum over match/substitution, deletion,
//! insertion, and — for each window offset `k` up to `MAX_MOVE_SWAP` — a
//! forward move, a backward move and a swap of equal pitches, each at
//! `MOVE_SWAP_COST`.  `lev_cost` is the same recurrence with the window
//! candidates disabled; it bounds `grid_cost` from above.

use vstd::prelude::*;

use crate::costs::{MAX_MOVE_SWAP, MOVE_SWAP_COST, OP_COST};
use crate::costs::{spec_deletion_cost, spec_insertion_cost, spec_substitution_cost};

verus! {

/// The smaller of two mathematical integers.
pub open spec fn int_min(a: int, b: int) -> int {
    if a <= b {
        a
    } else {
        b
    }
}

/// Minimum cost of aligning `i` source pitches against `j` target pitches.
pub open spec fn grid_cost(
    s: Seq<i64>,
    t: Seq<i64>,
    clamped: Option<(usize, usize)>,
    i: int,
    j: int,
) -> int
    decreases i, j, 20int,
{
    if i <= 0 && j <= 0 {
        0
    } else if i <= 0 {
        grid_cost(s, t, clamped, i, j - 1) + spec_insertion_cost(j - 1, clamped)
    } else if j <= 0 {
        i * (OP_COST as int)
    } else {
        window_min(s, t, clamped, i, j, MAX_MOVE_SWAP as nat)
    }
}

/// Minimum over the three windowless candidates of an interior cell:
/// diagonal (match/substitution), up (deletion) and left (insertion).
pub open spec fn base_min(
    s: Seq<i64>,
    t: Seq<i64>,
    clamped: Option<(usize, usize)>,
    i: int,
    j: int,
) -> int
    decreases i, j, 0int,
{
    if i <= 0 || j <= 0 {
        0
    } else {
        int_min(
            int_min(
                grid_cost(s, t, clamped, i - 1, j - 1) + spec_substitution_cost(s, t, i, j),
                grid_cost(s, t, clamped, i - 1, j) + spec_deletion_cost(j, t.len() as int),
            ),
            grid_cost(s, t, clamped, i, j - 1) + spec_insertion_cost(j - 1, clamped),
        )
    }
}

/// Whether a forward move with offset `q` applies at cell (i, j): the
/// source pitch reappears `q` steps past the current target position.
pub open spec fn fwd_move_applies(s: Seq<i64>, t: Seq<i64>, i: int, j: int, q: int) -> bool {
    j + q <= t.len() && s[i - 1] == t[j + q - 1]
}

/// Whether a backward move with offset `q` applies at cell (i, j): the
/// source pitch appeared `q` steps before the previous target position.
pub open spec fn back_move_applies(s: Seq<i64>, t: Seq<i64>, i: int, j: int, q: int) -> bool {
    j >= 1 + q && s[i - 1] == t[j - 1 - q]
}

/// Whether a swap with offset `q` applies at cell (i, j): two pitches `q`
/// apart exchanged their positions.
pub open spec fn swap_applies(s: Seq<i64>, t: Seq<i64>, i: int, j: int, q: int) -> bool {
    i >= 1 + q && j >= 1 + q && s[i - 1] == t[j - 1 - q] && s[i - 1 - q] == t[j - 1]
}

/// Cost reached through a forward move with offset `q` at cell (i, j).
pub open spec fn fwd_move_cost(
    s: Seq<i64>,
    t: Seq<i64>,
    clamped: Option<(usize, usize)>,
    i: int,
    j: int,
    q: int,
) -> int
    decreases i, j, 5int,
{
    if i < 1 {
        0
    } else {
        grid_cost(s, t, clamped, i - 1, j + q) + MOVE_SWAP_COST as int
    }
}

/// Cost reached through a backward move with offset `q` at cell (i, j).
pub open spec fn back_move_cost(
    s: Seq<i64>,
    t: Seq<i64>,
    clamped: Option<(usize, usize)>,
    i: int,
    j: int,
    q: int,
) -> int
    decreases i, j, 5int,
{
    if i < 1 {
        0
    } else {
        grid_cost(s, t, clamped, i - 1, j - 1 - q) + MOVE_SWAP_COST as int
    }
}

/// Cost reached through a swap with offset `q` at cell (i, j).
pub open spec fn swap_cost(
    s: Seq<i64>,
    t: Seq<i64>,
    clamped: Option<(usize, usize)>,
    i: int,
    j: int,
    q: int,
) -> int
    decreases i, j, 5int,
{
    if q < 0 || i < 1 + q {
        0
    } else {
        grid_cost(s, t, clamped, i - 1 - q, j - 1 - q) + MOVE_SWAP_COST as int
    }
}

/// Minimum over the windowless candidates and every applicable move or swap
/// candidate with offset at most `k`.  Within one offset the fold considers
/// the forward move, then the backward move, then the swap.
pub open spec fn window_min(
    s: Seq<i64>,
    t: Seq<i64>,
    clamped: Option<(usize, usize)>,
    i: int,
    j: int,
    k: nat,
) -> int
    decreases i, j, k + 10,
{
    if i <= 0 || j <= 0 {
        0
    } else if k == 0 {
        base_min(s, t, clamped, i, j)
    } else {
        let prev = window_min(s, t, clamped, i, j, (k - 1) as nat);
        let with_fwd = if fwd_move_applies(s, t, i, j, k as int) {
            int_min(prev, fwd_move_cost(s, t, clamped, i, j, k as int))
        } else {
            prev
        };
        let with_back = if back_move_applies(s, t, i, j, k as int) {
            int_min(with_fwd, back_move_cost(s, t, clamped, i, j, k as int))
        } else {
            with_fwd
        };
        if swap_applies(s, t, i, j, k as int) {
            int_min(with_back, swap_cost(s, t, clamped, i, j, k as int))
        } else {
            with_back
        }
    }
}

/// The same recurrence with the move/swap window disabled: a plain
/// Levenshtein grid over the same substitution, deletion and insertion
/// costs.
pub open spec fn lev_cost(
    s: Seq<i64>,
    t: Seq<i64>,
    clamped: Option<(usize, usize)>,
    i: int,
    j: int,
) -> int
    decreases i, j,
{
    if i <= 0 && j <= 0 {
        0
    } else if i <= 0 {
        lev_cost(s, t, clamped, i, j - 1) + spec_insertion_cost(j - 1, clamped)
    } else if j <= 0 {
        i * (OP_COST as int)
    } else {
        int_min(
            int_min(
                lev_cost(s, t, clamped, i - 1, j - 1) + spec_substitution_cost(s, t, i, j),
                lev_cost(s, t, clamped, i - 1, j) + spec_deletion_cost(j, t.len() as int),
            ),
            lev_cost(s, t, clamped, i, j - 1) + spec_insertion_cost(j - 1, clamped),
        )
    }
}

/// Every grid cell is nonnegative and at most `OP_COST * (i + j)`.
pub proof fn lemma_grid_cost_bounds(
    s: Seq<i64>,
    t: Seq<i64>,
    clamped: Option<(usize, usize)>,
    i: int,
    j: int,
)
    requires
        0 <= i,
        0 <= j,
    ensures
        0 <= grid_cost(s, t, clamped, i, j),
        grid_cost(s, t, clamped, i, j) <= (OP_COST as int) * (i + j),
    decreases i, j, 20int,
{
    if i <= 0 && j <= 0 {
    } else if i <= 0 {
        lemma_grid_cost_bounds(s, t, clamped, i, j - 1);
    } else if j <= 0 {
    } else {
        lemma_window_min_bounds(s, t, clamped, i, j, MAX_MOVE_SWAP as nat);
        lemma_grid_cost_bounds(s, t, clamped, i, j - 1);
    }
}

/// The windowed minimum is nonnegative and no larger than the windowless
/// minimum, which in turn is no larger than its insertion candidate.
pub proof fn lemma_window_min_bounds(
    s: Seq<i64>,
    t: Seq<i64>,
    clamped: Option<(usize, usize)>,
    i: int,
    j: int,
    k: nat,
)
    requires
        1 <= i,
        1 <= j,
    ensures
        0 <= window_min(s, t, clamped, i, j, k),
        window_min(s, t, clamped, i, j, k) <= base_min(s, t, clamped, i, j),
        base_min(s, t, clamped, i, j) <= grid_cost(s, t, clamped, i, j - 1) + spec_insertion_cost(
            j - 1,
            clamped,
        ),
    decreases i, j, k + 10,
{
    lemma_grid_cost_bounds(s, t, clamped, i - 1, j - 1);
    lemma_grid_cost_bounds(s, t, clamped, i - 1, j);
    lemma_grid_cost_bounds(s, t, clamped, i, j - 1);
    if k == 0 {
    } else {
        lemma_window_min_bounds(s, t, clamped, i, j, (k - 1) as nat);
        let ki = k as int;
        if fwd_move_applies(s, t, i, j, ki) {
            lemma_grid_cost_bounds(s, t, clamped, i - 1, j + ki);
        }
        if back_move_applies(s, t, i, j, ki) {
            lemma_grid_cost_bounds(s, t, clamped, i - 1, j - 1 - ki);
        }
        if swap_applies(s, t, i, j, ki) {
            lemma_grid_cost_bounds(s, t, clamped, i - 1 - ki, j - 1 - ki);
        }
        let prev = window_min(s, t, clamped, i, j, (k - 1) as nat);
        let with_fwd = if fwd_move_applies(s, t, i, j, ki) {
            int_min(prev, fwd_move_cost(s, t, clamped, i, j, ki))
        } else {
            prev
        };
        let with_back = if back_move_applies(s, t, i, j, ki) {
            int_min(with_fwd, back_move_cost(s, t, clamped, i, j, ki))
        } else {
            with_fwd
        };
        assert(0 <= with_fwd);
        assert(0 <= with_back);
        assert(window_min(s, t, clamped, i, j, k) == if swap_applies(s, t, i, j, ki) {
            int_min(with_back, swap_cost(s, t, clamped, i, j, ki))
        } else {
            with_back
        });
    }
}

/// The windowed minimum is attained: it equals the windowless minimum or
/// one of the applicable move/swap candidates with offset at most `k`.
pub proof fn lemma_window_min_attained(
    s: Seq<i64>,
    t: Seq<i64>,
    clamped: Option<(usize, usize)>,
    i: int,
    j: int,
    k: nat,
)
    requires
        1 <= i,
        1 <= j,
    ensures
        ({
            let w = window_min(s, t, clamped, i, j, k);
            w == base_min(s, t, clamped, i, j) || (exists|q: int|
                1 <= q <= k && #[trigger] fwd_move_applies(s, t, i, j, q) && w == fwd_move_cost(
                    s,
                    t,
                    clamped,
                    i,
                    j,
                    q,
                )) || (exists|q: int|
                1 <= q <= k && #[trigger] back_move_applies(s, t, i, j, q) && w == back_move_cost(
                    s,
                    t,
                    clamped,
                    i,
                    j,
                    q,
                )) || (exists|q: int|
                1 <= q <= k && #[trigger] swap_applies(s, t, i, j, q) && w == swap_cost(
                    s,
                    t,
                    clamped,
                    i,
                    j,
                    q,
                ))
        }),
    decreases k,
{
    if k == 0 {
    } else {
        lemma_window_min_attained(s, t, clamped, i, j, (k - 1) as nat);
        let w = window_min(s, t, clamped, i, j, k);
        let prev = window_min(s, t, clamped, i, j, (k - 1) as nat);
        let ki = k as int;
        if w != prev {
            assert((fwd_move_applies(s, t, i, j, ki) && w == fwd_move_cost(s, t, clamped, i, j, ki))
                || (back_move_applies(s, t, i, j, ki) && w == back_move_cost(s, t, clamped, i, j, ki))
                || (swap_applies(s, t, i, j, ki) && w == swap_cost(s, t, clamped, i, j, ki)));
        }
    }
}

} // verus!
