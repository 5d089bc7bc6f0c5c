//! Library-level laws of the alignment engine.
//!
//! Proved here, over the same models that `edit_dist`'s contract uses:
//! aligning a sequence with itself is free and pairs every index with
//! itself; the cost is zero exactly when the sequences are equal; the
//! total cost is never negative; and enabling the move/swap window never
//! raises the cost above the plain Levenshtein grid over the same
//! operation costs.

use vstd::prelude::*;

use crate::alignment::{spec_align_cost, spec_align_edits, spec_align_pairs};
use crate::cost_grid::{base_min, grid_cost, lev_cost, window_min};
use crate::cost_grid::{back_move_applies, back_move_cost, fwd_move_applies, fwd_move_cost,
    swap_applies, swap_cost};
use crate::cost_grid::{lemma_grid_cost_bounds, lemma_window_min_attained, lemma_window_min_bounds};
use crate::costs::{spec_clamp_range, spec_substitution_cost, MAX_MOVE_SWAP};
use crate::script::{backtrack_choice, pushed_edits, pushed_pairs};
use crate::script::{BacktrackChoice, OperationRecord};

verus! {

/// On the diagonal of a self-alignment every cell is free, whatever the
/// free-insertion range: the matching path never pays an insertion.
proof fn lemma_grid_diag_zero(s: Seq<i64>, clamped: Option<(usize, usize)>, i: int)
    requires
        0 <= i <= s.len(),
    ensures
        grid_cost(s, s, clamped, i, i) == 0,
    decreases i,
{
    if i == 0 {
    } else {
        lemma_grid_diag_zero(s, clamped, i - 1);
        lemma_grid_cost_bounds(s, s, clamped, i, i);
        lemma_window_min_bounds(s, s, clamped, i, i, MAX_MOVE_SWAP as nat);
        assert(spec_substitution_cost(s, s, i, i) == 0);
        assert(base_min(s, s, clamped, i, i) <= grid_cost(s, s, clamped, i - 1, i - 1));
        assert(grid_cost(s, s, clamped, i, i) == window_min(
            s,
            s,
            clamped,
            i,
            i,
            MAX_MOVE_SWAP as nat,
        ));
    }
}

/// The self-alignment walk from (i, i) emits no edits and pairs the
/// diagonal indices, highest first in push order.
proof fn lemma_identity_walk(s: Seq<i64>, i: int)
    requires
        0 <= i <= s.len(),
    ensures
        pushed_edits(s, s, Option::None, i, i) == Seq::<OperationRecord>::empty(),
        pushed_pairs(s, s, Option::None, i, i) == Seq::new(
            i as nat,
            |q: int| (((i - 1 - q) as usize), ((i - 1 - q) as usize)),
        ),
    decreases i,
{
    if i == 0 {
        assert(Seq::<(usize, usize)>::empty() =~= Seq::new(
            0,
            |q: int| (((i - 1 - q) as usize), ((i - 1 - q) as usize)),
        ));
    } else {
        lemma_identity_walk(s, i - 1);
        lemma_grid_diag_zero(s, Option::None, i);
        lemma_grid_diag_zero(s, Option::None, i - 1);
        assert(spec_substitution_cost(s, s, i, i) == 0);
        assert(backtrack_choice(s, s, Option::None, i, i) is Diagonal);
        assert(Seq::<OperationRecord>::empty() + Seq::<OperationRecord>::empty()
            =~= Seq::<OperationRecord>::empty());
        assert(seq![(((i - 1) as usize), ((i - 1) as usize))] + Seq::new(
            (i - 1) as nat,
            |q: int| (((i - 2 - q) as usize), ((i - 2 - q) as usize)),
        ) =~= Seq::new(i as nat, |q: int| (((i - 1 - q) as usize), ((i - 1 - q) as usize))));
    }
}

/// Aligning a sequence with itself costs nothing, produces an empty edit
/// script, and pairs every index with itself in ascending order.
pub proof fn lemma_align_identity(s: Seq<i64>)
    ensures
        spec_align_cost(s, s, Option::None) == 0,
        spec_align_edits(s, s, Option::None) == Seq::<OperationRecord>::empty(),
        spec_align_pairs(s, s, Option::None) == Seq::new(
            s.len(),
            |q: int| ((q as usize), (q as usize)),
        ),
{
    let n = s.len() as int;
    assert(spec_clamp_range(Option::None, n) == Option::<(usize, usize)>::None);
    lemma_grid_diag_zero(s, Option::None, n);
    lemma_identity_walk(s, n);
    assert(Seq::<OperationRecord>::empty().reverse() =~= Seq::<OperationRecord>::empty());
    assert(Seq::new(n as nat, |q: int| (((n - 1 - q) as usize), ((n - 1 - q) as usize)))
        .reverse() =~= Seq::new(s.len(), |q: int| ((q as usize), (q as usize))));
}

/// A zero-cost cell lies on the matching diagonal: row 0, column 0 and
/// every move or swap charge at least one unit, so only a chain of exact
/// matches reaches zero.
proof fn lemma_grid_zero_unwind(
    s: Seq<i64>,
    t: Seq<i64>,
    clamped: Option<(usize, usize)>,
    i: int,
    j: int,
)
    requires
        0 <= i <= s.len(),
        0 <= j <= t.len(),
        grid_cost(s, t, clamped, i, j) == 0,
    ensures
        i == j,
        forall|q: int| 0 <= q < i ==> s[q] == t[q],
    decreases i,
{
    if i <= 0 && j <= 0 {
    } else if i <= 0 {
        lemma_grid_cost_bounds(s, t, clamped, i, j - 1);
        assert(false);
    } else if j <= 0 {
        assert(false);
    } else {
        let g = grid_cost(s, t, clamped, i, j);
        let kmax = MAX_MOVE_SWAP as nat;
        assert(g == window_min(s, t, clamped, i, j, kmax));
        lemma_window_min_attained(s, t, clamped, i, j, kmax);
        lemma_grid_cost_bounds(s, t, clamped, i - 1, j - 1);
        lemma_grid_cost_bounds(s, t, clamped, i - 1, j);
        lemma_grid_cost_bounds(s, t, clamped, i, j - 1);
        if exists|q: int|
            1 <= q <= kmax && #[trigger] fwd_move_applies(s, t, i, j, q) && g == fwd_move_cost(
                s,
                t,
                clamped,
                i,
                j,
                q,
            ) {
            let q = choose|q: int|
                1 <= q <= kmax && #[trigger] fwd_move_applies(s, t, i, j, q) && g == fwd_move_cost(
                    s,
                    t,
                    clamped,
                    i,
                    j,
                    q,
                );
            lemma_grid_cost_bounds(s, t, clamped, i - 1, j + q);
            assert(false);
        } else if exists|q: int|
            1 <= q <= kmax && #[trigger] back_move_applies(s, t, i, j, q) && g == back_move_cost(
                s,
                t,
                clamped,
                i,
                j,
                q,
            ) {
            let q = choose|q: int|
                1 <= q <= kmax && #[trigger] back_move_applies(s, t, i, j, q) && g
                    == back_move_cost(s, t, clamped, i, j, q);
            lemma_grid_cost_bounds(s, t, clamped, i - 1, j - 1 - q);
            assert(false);
        } else if exists|q: int|
            1 <= q <= kmax && #[trigger] swap_applies(s, t, i, j, q) && g == swap_cost(
                s,
                t,
                clamped,
                i,
                j,
                q,
            ) {
            let q = choose|q: int|
                1 <= q <= kmax && #[trigger] swap_applies(s, t, i, j, q) && g == swap_cost(
                    s,
                    t,
                    clamped,
                    i,
                    j,
                    q,
                );
            lemma_grid_cost_bounds(s, t, clamped, i - 1 - q, j - 1 - q);
            assert(false);
        } else {
            assert(g == base_min(s, t, clamped, i, j));
            assert(grid_cost(s, t, clamped, i - 1, j - 1) == 0);
            assert(spec_substitution_cost(s, t, i, j) == 0);
            lemma_grid_zero_unwind(s, t, clamped, i - 1, j - 1);
        }
    }
}

/// The alignment is free exactly when the sequences are equal: matching
/// costs nothing, and every other edit step has positive cost.
pub proof fn lemma_zero_cost_iff_equal(s: Seq<i64>, t: Seq<i64>, range: Option<(usize, usize)>)
    ensures
        spec_align_cost(s, t, range) == 0 <==> s == t,
{
    let clamped = spec_clamp_range(range, t.len() as int);
    if spec_align_cost(s, t, range) == 0 {
        lemma_grid_zero_unwind(s, t, clamped, s.len() as int, t.len() as int);
        assert(s =~= t);
    }
    if s == t {
        lemma_grid_diag_zero(s, clamped, s.len() as int);
    }
}

/// The total alignment cost is never negative, whatever the inputs.
pub proof fn lemma_align_cost_nonnegative(s: Seq<i64>, t: Seq<i64>, range: Option<(usize, usize)>)
    ensures
        spec_align_cost(s, t, range) >= 0,
{
    lemma_grid_cost_bounds(
        s,
        t,
        spec_clamp_range(range, t.len() as int),
        s.len() as int,
        t.len() as int,
    );
}

/// Total cost of the same alignment with the move/swap window disabled: a
/// plain Levenshtein distance over the same operation costs.
pub open spec fn spec_levenshtein_cost(s: Seq<i64>, t: Seq<i64>, range: Option<(usize, usize)>) -> int {
    lev_cost(s, t, spec_clamp_range(range, t.len() as int), s.len() as int, t.len() as int)
}

/// Cell by cell, the windowed grid never exceeds the windowless grid.
proof fn lemma_grid_le_lev(s: Seq<i64>, t: Seq<i64>, clamped: Option<(usize, usize)>, i: int, j: int)
    requires
        0 <= i,
        0 <= j,
    ensures
        grid_cost(s, t, clamped, i, j) <= lev_cost(s, t, clamped, i, j),
    decreases i, j,
{
    if i <= 0 && j <= 0 {
    } else if i <= 0 {
        lemma_grid_le_lev(s, t, clamped, i, j - 1);
    } else if j <= 0 {
    } else {
        lemma_grid_le_lev(s, t, clamped, i - 1, j - 1);
        lemma_grid_le_lev(s, t, clamped, i - 1, j);
        lemma_grid_le_lev(s, t, clamped, i, j - 1);
        lemma_window_min_bounds(s, t, clamped, i, j, MAX_MOVE_SWAP as nat);
        assert(grid_cost(s, t, clamped, i, j) == window_min(
            s,
            t,
            clamped,
            i,
            j,
            MAX_MOVE_SWAP as nat,
        ));
    }
}

/// Enabling bounded moves and swaps never raises the total cost: the
/// windowed alignment cost is bounded by the plain Levenshtein cost over
/// the same substitution, insertion and deletion costs.
pub proof fn lemma_window_bounded_by_levenshtein(
    s: Seq<i64>,
    t: Seq<i64>,
    range: Option<(usize, usize)>,
)
    ensures
        spec_align_cost(s, t, range) <= spec_levenshtein_cost(s, t, range),
{
    lemma_grid_le_lev(
        s,
        t,
        spec_clamp_range(range, t.len() as int),
        s.len() as int,
        t.len() as int,
    );
}

} // verus!
