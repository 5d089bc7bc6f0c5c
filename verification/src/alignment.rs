//! Executable alignment engine, proved against the grid and backtrack
//! models.
//!
//! The cost grid is a flat buffer of `(n + 1) * (m + 1)` signed cells
//! indexed by `row * (m + 1) + col`, owned by one call and discarded after
//! backtracking.  `edit_dist` fills it with the recurrence of
//! [`crate::cost_grid::grid_cost`], walks it back under the policy of
//! [`crate::script::backtrack_choice`], and returns the edit script, the
//! aligned index pairs and the total cost exactly as the models state them.

use vstd::prelude::*;
use vstd::pervasive::unreached;

use crate::cost_grid::{base_min, grid_cost, int_min, lemma_grid_cost_bounds, window_min};
use crate::cost_grid::{back_move_applies, back_move_cost, fwd_move_applies, fwd_move_cost,
    swap_applies, swap_cost};
use crate::costs::{clamp_range, deletion_cost, insertion_cost, spec_clamp_range};
use crate::costs::{MAX_MOVE_SWAP, MOVE_SWAP_COST, OP_COST};
use crate::costs::spec_substitution_cost;
use crate::script::{backtrack_choice, first_back_offset, first_fwd_offset, first_swap_offset,
    pushed_edits, pushed_pairs};
use crate::script::{back_step_test, fwd_step_test, swap_step_test};
use crate::script::{lemma_choice_not_stuck, lemma_first_back_characterized,
    lemma_first_fwd_characterized, lemma_first_swap_characterized};
use crate::script::{BacktrackChoice, OperationRecord};
use crate::script::{KIND_DELETION, KIND_INSERTION, KIND_SUBSTITUTION};

verus! {

/// Position of cell (i, j) in a flat row-major buffer of the given width.
pub open spec fn flat_index(i: int, j: int, width: int) -> int {
    i * width + j
}

/// The first `upto` cells of the flat buffer, in fill order, hold the grid
/// recurrence values.
pub open spec fn filled_prefix(
    dp: Seq<i64>,
    s: Seq<i64>,
    t: Seq<i64>,
    clamped: Option<(usize, usize)>,
    upto: int,
) -> bool {
    forall|i: int, j: int|
        0 <= i <= s.len() && 0 <= j <= t.len() && flat_index(i, j, t.len() as int + 1) < upto
            ==> #[trigger] dp[flat_index(i, j, t.len() as int + 1)] == grid_cost(s, t, clamped, i, j)
}

/// The flat buffer is a complete cost grid for `s` against `t`.
pub open spec fn grid_table(
    dp: Seq<i64>,
    s: Seq<i64>,
    t: Seq<i64>,
    clamped: Option<(usize, usize)>,
) -> bool {
    dp.len() == (s.len() + 1) * (t.len() + 1) && filled_prefix(dp, s, t, clamped, dp.len() as int)
}

/// Flat positions of in-range cells stay inside the buffer.
proof fn lemma_flat_bounds(n: int, m: int, i: int, j: int)
    requires
        0 <= i <= n,
        0 <= j <= m,
    ensures
        0 <= i * (m + 1),
        i * (m + 1) <= flat_index(i, j, m + 1),
        flat_index(i, j, m + 1) < (n + 1) * (m + 1),
        n + 1 <= (n + 1) * (m + 1),
        m + 1 <= (n + 1) * (m + 1),
{
    assert(0 <= i * (m + 1) && i * (m + 1) + j < (n + 1) * (m + 1) && n + 1 <= (n + 1) * (m + 1)
        && m + 1 <= (n + 1) * (m + 1)) by (nonlinear_arith)
        requires
            0 <= i <= n,
            0 <= j <= m,
    ;
}

/// Distinct in-range cells have distinct flat positions.
proof fn lemma_flat_injective(m: int, i1: int, j1: int, i2: int, j2: int)
    requires
        0 <= i1,
        0 <= i2,
        0 <= j1 <= m,
        0 <= j2 <= m,
        flat_index(i1, j1, m + 1) == flat_index(i2, j2, m + 1),
    ensures
        i1 == i2,
        j1 == j2,
{
    assert(i1 == i2 && j1 == j2) by (nonlinear_arith)
        requires
            0 <= i1,
            0 <= i2,
            0 <= j1 <= m,
            0 <= j2 <= m,
            i1 * (m + 1) + j1 == i2 * (m + 1) + j2,
    ;
}

/// Fill order of the flat buffer agrees with the lexicographic order of
/// cell coordinates.
proof fn lemma_flat_lt(m: int, i1: int, j1: int, i2: int, j2: int)
    requires
        0 <= i1,
        0 <= i2,
        0 <= j1 <= m,
        0 <= j2 <= m,
        i1 < i2 || (i1 == i2 && j1 < j2),
    ensures
        flat_index(i1, j1, m + 1) < flat_index(i2, j2, m + 1),
{
    assert(i1 * (m + 1) + j1 < i2 * (m + 1) + j2) by (nonlinear_arith)
        requires
            0 <= i1,
            0 <= i2,
            0 <= j1 <= m,
            0 <= j2 <= m,
            i1 < i2 || (i1 == i2 && j1 < j2),
    ;
}

/// A row's one-past-the-end position is the next row's start.
proof fn lemma_flat_row_end(m: int, i: int)
    ensures
        flat_index(i, m + 1, m + 1) == flat_index(i + 1, 0, m + 1),
{
    assert(i * (m + 1) + (m + 1) == (i + 1) * (m + 1)) by (nonlinear_arith);
}

/// Reads the already-filled cell (ci, cj): the ghost pair (li, lj) is the
/// first cell, in fill order, that the buffer does not yet hold.
fn read_cell(
    dp: &Vec<i64>,
    s: &Vec<i64>,
    t: &Vec<i64>,
    clamped: Option<(usize, usize)>,
    ci: usize,
    cj: usize,
    Ghost(li): Ghost<int>,
    Ghost(lj): Ghost<int>,
) -> (v: i64)
    requires
        dp@.len() == (s@.len() + 1) * (t@.len() + 1),
        filled_prefix(dp@, s@, t@, clamped, flat_index(li, lj, t@.len() as int + 1)),
        ci <= s@.len(),
        cj <= t@.len(),
        0 <= li,
        0 <= lj <= t@.len(),
        (ci as int) < li || (ci as int == li && (cj as int) < lj),
    ensures
        v == grid_cost(s@, t@, clamped, ci as int, cj as int),
{
    let m = t.len();
    let buf_len = dp.len();
    proof {
        lemma_flat_bounds(s@.len() as int, m as int, ci as int, cj as int);
        lemma_flat_lt(m as int, ci as int, cj as int, li, lj);
        assert(flat_index(ci as int, cj as int, m as int + 1) < buf_len as int);
    }
    let idx = ci * (m + 1) + cj;
    proof {
        assert(idx as int == flat_index(ci as int, cj as int, m as int + 1));
        assert(dp@[flat_index(ci as int, cj as int, m as int + 1)] == grid_cost(
            s@,
            t@,
            clamped,
            ci as int,
            cj as int,
        ));
    }
    dp[idx]
}

/// The smaller of two cell values.
fn min2(a: i64, b: i64) -> (r: i64)
    ensures
        r as int == int_min(a as int, b as int),
{
    if a <= b {
        a
    } else {
        b
    }
}

/// The smallest of three cell values.
fn min3(a: i64, b: i64, c: i64) -> (r: i64)
    ensures
        r as int == int_min(int_min(a as int, b as int), c as int),
{
    let ab = if a <= b {
        a
    } else {
        b
    };
    if ab <= c {
        ab
    } else {
        c
    }
}

/// Returns the elements of `v` in reverse order.
fn reversed<T>(v: Vec<T>) -> (r: Vec<T>)
    ensures
        r@ == v@.reverse(),
{
    let ghost orig = v@;
    let mut rem = v;
    let mut out: Vec<T> = Vec::new();
    proof {
        assert(orig.take(orig.len() as int) =~= orig);
        assert(orig.skip(orig.len() as int).reverse() =~= Seq::<T>::empty());
    }
    while rem.len() > 0
        invariant
            rem@.len() <= orig.len(),
            rem@ == orig.take(rem@.len() as int),
            out@ == orig.skip(rem@.len() as int).reverse(),
        decreases rem@.len(),
    {
        let ghost k = rem@.len() as int;
        let x = rem.pop().unwrap();
        out.push(x);
        proof {
            assert(rem@ =~= orig.take(k - 1));
            assert(out@ =~= orig.skip(k - 1).reverse());
        }
    }
    proof {
        assert(orig.skip(0) =~= orig);
        assert(out@ == orig.reverse());
    }
    out
}

/// Builds the cost grid for `s` against `t` as a flat row-major buffer.
#[verifier::loop_isolation(false)]
fn fill_cost_grid(s: &Vec<i64>, t: &Vec<i64>, clamped: Option<(usize, usize)>) -> (dp: Vec<i64>)
    requires
        (s@.len() + 1) * (t@.len() + 1) <= usize::MAX,
        (OP_COST as int) * (s@.len() + t@.len()) <= i64::MAX,
    ensures
        grid_table(dp@, s@, t@, clamped),
{
    let n = s.len();
    let m = t.len();
    proof {
        lemma_flat_bounds(n as int, m as int, 0, 0);
    }
    let width = m + 1;
    let total = (n + 1) * width;
    let mut dp: Vec<i64> = Vec::new();
    while dp.len() < total
        invariant
            dp@.len() <= total,
            forall|x: int| 0 <= x < dp@.len() ==> dp@[x] == 0i64,
        decreases total - dp@.len(),
    {
        dp.push(0i64);
    }
    proof {
        assert forall|a: int, b: int|
            0 <= a <= n && 0 <= b <= m && flat_index(a, b, m as int + 1) < 1 implies dp@[flat_index(
            a,
            b,
            m as int + 1,
        )] == grid_cost(s@, t@, clamped, a, b) by {
            lemma_flat_bounds(n as int, m as int, a, b);
            if a != 0 || b != 0 {
                lemma_flat_lt(m as int, 0, 0, a, b);
            }
        }
        assert(filled_prefix(dp@, s@, t@, clamped, 1));
    }
    // Row 0: pure insertions of the target prefix.
    let mut j: usize = 1;
    while j <= m
        invariant
            1 <= j <= m + 1,
            dp@.len() == total,
            filled_prefix(dp@, s@, t@, clamped, j as int),
        decreases m + 1 - j,
    {
        let c = insertion_cost(j - 1, clamped);
        let prev = read_cell(&dp, s, t, clamped, 0, j - 1, Ghost(0int), Ghost(j as int));
        proof {
            lemma_grid_cost_bounds(s@, t@, clamped, 0, j as int - 1);
        }
        let v = prev + c;
        dp.set(j, v);
        proof {
            let ghost w = m as int + 1;
            assert(v == grid_cost(s@, t@, clamped, 0, j as int));
            assert forall|a: int, b: int|
                0 <= a <= n && 0 <= b <= m && flat_index(a, b, w) < j as int + 1 implies dp@[
                flat_index(a, b, w)] == grid_cost(s@, t@, clamped, a, b) by {
                if flat_index(a, b, w) == j as int {
                    lemma_flat_injective(m as int, a, b, 0, j as int);
                }
            }
            assert(filled_prefix(dp@, s@, t@, clamped, j as int + 1));
        }
        j += 1;
    }
    // Rows 1..=n: deletions in column 0, then the windowed recurrence.
    let mut i: usize = 1;
    while i <= n
        invariant
            1 <= i <= n + 1,
            dp@.len() == total,
            filled_prefix(dp@, s@, t@, clamped, flat_index(i as int, 0, m as int + 1)),
        decreases n + 1 - i,
    {
        let ghost w = m as int + 1;
        proof {
            lemma_flat_bounds(n as int, m as int, i as int, 0);
        }
        let idx0 = i * width;
        dp.set(idx0, (i as i64) * OP_COST);
        proof {
            assert(dp@[flat_index(i as int, 0, w)] == grid_cost(s@, t@, clamped, i as int, 0));
            assert forall|a: int, b: int|
                0 <= a <= n && 0 <= b <= m && flat_index(a, b, w) < flat_index(i as int, 0, w) + 1
                implies dp@[flat_index(a, b, w)] == grid_cost(s@, t@, clamped, a, b) by {
                if flat_index(a, b, w) == flat_index(i as int, 0, w) {
                    lemma_flat_injective(m as int, a, b, i as int, 0);
                }
            }
            assert(filled_prefix(dp@, s@, t@, clamped, flat_index(i as int, 1, w)));
        }
        let mut j2: usize = 1;
        while j2 <= m
            invariant
                1 <= j2 <= m + 1,
                dp@.len() == total,
                filled_prefix(dp@, s@, t@, clamped, flat_index(i as int, j2 as int, w)),
            decreases m + 1 - j2,
        {
            let gi = Ghost(i as int);
            let gj = Ghost(j2 as int);
            let ins_c = insertion_cost(j2 - 1, clamped);
            let del_c = deletion_cost(j2, m);
            let diag = read_cell(&dp, s, t, clamped, i - 1, j2 - 1, gi, gj);
            let up = read_cell(&dp, s, t, clamped, i - 1, j2, gi, gj);
            let left = read_cell(&dp, s, t, clamped, i, j2 - 1, gi, gj);
            let sub_c: i64 = if s[i - 1] == t[j2 - 1] {
                0
            } else {
                OP_COST
            };
            proof {
                lemma_grid_cost_bounds(s@, t@, clamped, i as int - 1, j2 as int - 1);
                lemma_grid_cost_bounds(s@, t@, clamped, i as int - 1, j2 as int);
                lemma_grid_cost_bounds(s@, t@, clamped, i as int, j2 as int - 1);
            }
            let mut best = min3(diag + sub_c, up + del_c, left + ins_c);
            proof {
                assert(sub_c as int == spec_substitution_cost(s@, t@, i as int, j2 as int));
                assert(best as int == base_min(s@, t@, clamped, i as int, j2 as int));
                assert(best as int == window_min(s@, t@, clamped, i as int, j2 as int, 0nat));
            }
            let mut k: usize = 1;
            while k <= MAX_MOVE_SWAP
                invariant
                    1 <= k <= MAX_MOVE_SWAP + 1,
                    best as int == window_min(s@, t@, clamped, i as int, j2 as int, (k - 1) as nat),
                decreases MAX_MOVE_SWAP + 1 - k,
            {
                let ghost prev_best = best as int;
                if k <= m - j2 && s[i - 1] == t[j2 + k - 1] {
                    let cand = read_cell(&dp, s, t, clamped, i - 1, j2 + k, gi, gj);
                    proof {
                        lemma_grid_cost_bounds(s@, t@, clamped, i as int - 1, j2 as int + k as int);
                    }
                    best = min2(best, cand + MOVE_SWAP_COST);
                }
                proof {
                    let ghost with_fwd = if fwd_move_applies(s@, t@, i as int, j2 as int, k as int) {
                        int_min(prev_best, fwd_move_cost(s@, t@, clamped, i as int, j2 as int, k as int))
                    } else {
                        prev_best
                    };
                    assert(best as int == with_fwd);
                }
                let ghost after_fwd = best as int;
                if j2 >= 1 + k && s[i - 1] == t[j2 - 1 - k] {
                    let cand = read_cell(&dp, s, t, clamped, i - 1, j2 - 1 - k, gi, gj);
                    proof {
                        lemma_grid_cost_bounds(s@, t@, clamped, i as int - 1, j2 as int - 1 - k as int);
                    }
                    best = min2(best, cand + MOVE_SWAP_COST);
                }
                proof {
                    let ghost with_back = if back_move_applies(s@, t@, i as int, j2 as int, k as int) {
                        int_min(after_fwd, back_move_cost(s@, t@, clamped, i as int, j2 as int, k as int))
                    } else {
                        after_fwd
                    };
                    assert(best as int == with_back);
                }
                let ghost after_back = best as int;
                if i >= 1 + k && j2 >= 1 + k && s[i - 1] == t[j2 - 1 - k] && s[i - 1 - k] == t[j2 - 1] {
                    let cand = read_cell(&dp, s, t, clamped, i - 1 - k, j2 - 1 - k, gi, gj);
                    proof {
                        lemma_grid_cost_bounds(
                            s@,
                            t@,
                            clamped,
                            i as int - 1 - k as int,
                            j2 as int - 1 - k as int,
                        );
                    }
                    best = min2(best, cand + MOVE_SWAP_COST);
                }
                proof {
                    let ghost with_swap = if swap_applies(s@, t@, i as int, j2 as int, k as int) {
                        int_min(after_back, swap_cost(s@, t@, clamped, i as int, j2 as int, k as int))
                    } else {
                        after_back
                    };
                    assert(best as int == with_swap);
                    assert(best as int == window_min(s@, t@, clamped, i as int, j2 as int, k as nat));
                }
                k += 1;
            }
            proof {
                assert(best as int == window_min(
                    s@,
                    t@,
                    clamped,
                    i as int,
                    j2 as int,
                    MAX_MOVE_SWAP as nat,
                ));
                assert(best as int == grid_cost(s@, t@, clamped, i as int, j2 as int));
                lemma_flat_bounds(n as int, m as int, i as int, j2 as int);
            }
            let idx = i * width + j2;
            dp.set(idx, best);
            proof {
                assert forall|a: int, b: int|
                    0 <= a <= n && 0 <= b <= m && flat_index(a, b, w) < flat_index(
                        i as int,
                        j2 as int,
                        w,
                    ) + 1 implies dp@[flat_index(a, b, w)] == grid_cost(s@, t@, clamped, a, b) by {
                    if flat_index(a, b, w) == flat_index(i as int, j2 as int, w) {
                        lemma_flat_injective(m as int, a, b, i as int, j2 as int);
                    }
                }
                assert(filled_prefix(dp@, s@, t@, clamped, flat_index(i as int, j2 as int + 1, w)));
            }
            j2 += 1;
        }
        proof {
            lemma_flat_row_end(m as int, i as int);
            assert(filled_prefix(dp@, s@, t@, clamped, flat_index(i as int + 1, 0, w)));
        }
        i += 1;
    }
    proof {
        assert(total as int == flat_index(n as int + 1, 0, m as int + 1));
        assert(grid_table(dp@, s@, t@, clamped));
    }
    dp
}

/// Smallest offset from `q` up whose backward-move test passes on the
/// grid, mirroring [`first_back_offset`].
fn find_back_offset(
    dp: &Vec<i64>,
    s: &Vec<i64>,
    t: &Vec<i64>,
    clamped: Option<(usize, usize)>,
    i: usize,
    j: usize,
    g: i64,
    q: usize,
) -> (r: Option<usize>)
    requires
        grid_table(dp@, s@, t@, clamped),
        (OP_COST as int) * (s@.len() + t@.len()) <= i64::MAX,
        1 <= i <= s@.len(),
        1 <= j <= t@.len(),
        1 <= q,
        g == grid_cost(s@, t@, clamped, i as int, j as int),
    ensures
        match r {
            Option::Some(k) => Option::Some(k as int) == first_back_offset(
                s@,
                t@,
                clamped,
                i as int,
                j as int,
                q as int,
            ),
            Option::None => first_back_offset(s@, t@, clamped, i as int, j as int, q as int)
                is None,
        },
    decreases MAX_MOVE_SWAP as int + 1 - q as int,
{
    if q > MAX_MOVE_SWAP {
        return Option::None;
    }
    if j >= 1 + q {
        let cand = read_cell(dp, s, t, clamped, i - 1, j - 1 - q, Ghost(s@.len() as int + 1), Ghost(0));
        proof {
            lemma_grid_cost_bounds(s@, t@, clamped, i as int - 1, j as int - 1 - q as int);
        }
        if g == cand + MOVE_SWAP_COST {
            proof {
                assert(back_step_test(s@, t@, clamped, i as int, j as int, q as int));
            }
            return Option::Some(q);
        }
    }
    proof {
        assert(!back_step_test(s@, t@, clamped, i as int, j as int, q as int));
    }
    find_back_offset(dp, s, t, clamped, i, j, g, q + 1)
}

/// Smallest offset from `q` up whose forward-move test passes on the grid,
/// mirroring [`first_fwd_offset`].
fn find_fwd_offset(
    dp: &Vec<i64>,
    s: &Vec<i64>,
    t: &Vec<i64>,
    clamped: Option<(usize, usize)>,
    i: usize,
    j: usize,
    g: i64,
    q: usize,
) -> (r: Option<usize>)
    requires
        grid_table(dp@, s@, t@, clamped),
        (OP_COST as int) * (s@.len() + t@.len()) <= i64::MAX,
        1 <= i <= s@.len(),
        1 <= j <= t@.len(),
        1 <= q,
        g == grid_cost(s@, t@, clamped, i as int, j as int),
    ensures
        match r {
            Option::Some(k) => Option::Some(k as int) == first_fwd_offset(
                s@,
                t@,
                clamped,
                i as int,
                j as int,
                q as int,
            ),
            Option::None => first_fwd_offset(s@, t@, clamped, i as int, j as int, q as int)
                is None,
        },
    decreases MAX_MOVE_SWAP as int + 1 - q as int,
{
    if q > MAX_MOVE_SWAP {
        return Option::None;
    }
    let m = t.len();
    if q <= m - j {
        let cand = read_cell(dp, s, t, clamped, i - 1, j + q, Ghost(s@.len() as int + 1), Ghost(0));
        proof {
            lemma_grid_cost_bounds(s@, t@, clamped, i as int - 1, j as int + q as int);
        }
        if g == cand + MOVE_SWAP_COST {
            proof {
                assert(fwd_step_test(s@, t@, clamped, i as int, j as int, q as int));
            }
            return Option::Some(q);
        }
    }
    proof {
        assert(!fwd_step_test(s@, t@, clamped, i as int, j as int, q as int));
    }
    find_fwd_offset(dp, s, t, clamped, i, j, g, q + 1)
}

/// Smallest offset from `q` up whose swap test passes on the grid,
/// mirroring [`first_swap_offset`].
fn find_swap_offset(
    dp: &Vec<i64>,
    s: &Vec<i64>,
    t: &Vec<i64>,
    clamped: Option<(usize, usize)>,
    i: usize,
    j: usize,
    g: i64,
    q: usize,
) -> (r: Option<usize>)
    requires
        grid_table(dp@, s@, t@, clamped),
        (OP_COST as int) * (s@.len() + t@.len()) <= i64::MAX,
        1 <= i <= s@.len(),
        1 <= j <= t@.len(),
        1 <= q,
        g == grid_cost(s@, t@, clamped, i as int, j as int),
    ensures
        match r {
            Option::Some(k) => Option::Some(k as int) == first_swap_offset(
                s@,
                t@,
                clamped,
                i as int,
                j as int,
                q as int,
            ),
            Option::None => first_swap_offset(s@, t@, clamped, i as int, j as int, q as int)
                is None,
        },
    decreases MAX_MOVE_SWAP as int + 1 - q as int,
{
    if q > MAX_MOVE_SWAP {
        return Option::None;
    }
    if i >= 1 + q && j >= 1 + q && s[i - 1] == t[j - 1 - q] && s[i - 1 - q] == t[j - 1] {
        let cand = read_cell(
            dp,
            s,
            t,
            clamped,
            i - 1 - q,
            j - 1 - q,
            Ghost(s@.len() as int + 1),
            Ghost(0),
        );
        proof {
            lemma_grid_cost_bounds(s@, t@, clamped, i as int - 1 - q as int, j as int - 1 - q as int);
        }
        if g == cand + MOVE_SWAP_COST {
            proof {
                assert(swap_step_test(s@, t@, clamped, i as int, j as int, q as int));
            }
            return Option::Some(q);
        }
    }
    proof {
        assert(!swap_step_test(s@, t@, clamped, i as int, j as int, q as int));
    }
    find_swap_offset(dp, s, t, clamped, i, j, g, q + 1)
}

/// Walks the grid back from (n, m) under the fixed policy order, emitting
/// edit records and aligned pairs, and returns them in forward time order
/// together with the total cost read from cell (n, m).
#[verifier::loop_isolation(false)]
#[verifier::rlimit(100)]
fn backtrack(dp: &Vec<i64>, s: &Vec<i64>, t: &Vec<i64>, clamped: Option<(usize, usize)>) -> (r: (
    Vec<OperationRecord>,
    Vec<(usize, usize)>,
    i64,
))
    requires
        grid_table(dp@, s@, t@, clamped),
        (OP_COST as int) * (s@.len() + t@.len()) <= i64::MAX,
    ensures
        r.0@ == pushed_edits(s@, t@, clamped, s@.len() as int, t@.len() as int).reverse(),
        r.1@ == pushed_pairs(s@, t@, clamped, s@.len() as int, t@.len() as int).reverse(),
        r.2 == grid_cost(s@, t@, clamped, s@.len() as int, t@.len() as int),
{
    let n = s.len();
    let m = t.len();
    let ghost gn = n as int;
    let ghost gm = m as int;
    let ghost full_li = gn + 1;
    let min_cost = read_cell(dp, s, t, clamped, n, m, Ghost(full_li), Ghost(0));
    let mut edits: Vec<OperationRecord> = Vec::new();
    let mut pairs: Vec<(usize, usize)> = Vec::new();
    let mut i: usize = n;
    let mut j: usize = m;
    while i > 0 && j > 0
        invariant
            i <= n,
            j <= m,
            pushed_edits(s@, t@, clamped, gn, gm) == edits@ + pushed_edits(
                s@,
                t@,
                clamped,
                i as int,
                j as int,
            ),
            pushed_pairs(s@, t@, clamped, gn, gm) == pairs@ + pushed_pairs(
                s@,
                t@,
                clamped,
                i as int,
                j as int,
            ),
        decreases i, j,
    {
        let ghost gi = i as int;
        let ghost gj = j as int;
        let ghost edits0 = edits@;
        let ghost pairs0 = pairs@;
        let g = read_cell(dp, s, t, clamped, i, j, Ghost(full_li), Ghost(0));
        let diag = read_cell(dp, s, t, clamped, i - 1, j - 1, Ghost(full_li), Ghost(0));
        let up = read_cell(dp, s, t, clamped, i - 1, j, Ghost(full_li), Ghost(0));
        let left = read_cell(dp, s, t, clamped, i, j - 1, Ghost(full_li), Ghost(0));
        let sub_c: i64 = if s[i - 1] == t[j - 1] {
            0
        } else {
            OP_COST
        };
        let del_c = deletion_cost(j, m);
        let ins_c = insertion_cost(j - 1, clamped);
        proof {
            lemma_grid_cost_bounds(s@, t@, clamped, gi - 1, gj - 1);
            lemma_grid_cost_bounds(s@, t@, clamped, gi - 1, gj);
            lemma_grid_cost_bounds(s@, t@, clamped, gi, gj - 1);
            assert(sub_c as int == spec_substitution_cost(s@, t@, gi, gj));
        }
        if g == diag + sub_c {
            proof {
                assert(backtrack_choice(s@, t@, clamped, gi, gj) is Diagonal);
            }
            pairs.push((i - 1, j - 1));
            if sub_c != 0 {
                edits.push(OperationRecord::new(KIND_SUBSTITUTION, i - 1, Option::Some(j - 1), i - 1, j - 1));
            }
            proof {
                let ghost erest = pushed_edits(s@, t@, clamped, gi - 1, gj - 1);
                let ghost prest = pushed_pairs(s@, t@, clamped, gi - 1, gj - 1);
                let ghost p = (((i - 1) as usize), ((j - 1) as usize));
                assert(pairs0.push(p) + prest =~= pairs0 + (seq![p] + prest));
                if sub_c != 0 {
                    let ghost e = crate::script::substitution_record(gi, gj);
                    assert(edits0.push(e) + erest =~= edits0 + (seq![e] + erest));
                } else {
                    assert(edits0 + erest =~= edits0 + (Seq::<OperationRecord>::empty() + erest));
                }
            }
            i -= 1;
            j -= 1;
        } else if g == up + del_c {
            proof {
                assert(backtrack_choice(s@, t@, clamped, gi, gj) is Deletion);
            }
            if del_c != 0 {
                edits.push(OperationRecord::new(KIND_DELETION, i - 1, Option::None, i - 1, j));
            }
            proof {
                let ghost erest = pushed_edits(s@, t@, clamped, gi - 1, gj);
                if del_c != 0 {
                    let ghost e = crate::script::deletion_record(gi, gj);
                    assert(edits0.push(e) + erest =~= edits0 + (seq![e] + erest));
                } else {
                    assert(edits0 + erest =~= edits0 + (Seq::<OperationRecord>::empty() + erest));
                }
            }
            i -= 1;
        } else if g == left + ins_c {
            proof {
                assert(backtrack_choice(s@, t@, clamped, gi, gj) is Insertion);
            }
            if ins_c != 0 {
                edits.push(OperationRecord::new(KIND_INSERTION, i - 1, Option::Some(j - 1), i, j - 1));
            }
            proof {
                let ghost erest = pushed_edits(s@, t@, clamped, gi, gj - 1);
                if ins_c != 0 {
                    let ghost e = crate::script::insertion_record(gi, gj);
                    assert(edits0.push(e) + erest =~= edits0 + (seq![e] + erest));
                } else {
                    assert(edits0 + erest =~= edits0 + (Seq::<OperationRecord>::empty() + erest));
                }
            }
            j -= 1;
        } else {
            let back = find_back_offset(dp, s, t, clamped, i, j, g, 1);
            if let Option::Some(k) = back {
                proof {
                    lemma_first_back_characterized(s@, t@, clamped, gi, gj, 1);
                    assert(back_step_test(s@, t@, clamped, gi, gj, k as int));
                    assert(backtrack_choice(s@, t@, clamped, gi, gj) == BacktrackChoice::BackwardMove(
                        k as int,
                    ));
                }
                pairs.push((i - 1, j - 1 - k));
                proof {
                    let ghost prest = pushed_pairs(s@, t@, clamped, gi - 1, gj - 1 - k as int);
                    let ghost p = (((i - 1) as usize), ((j - 1 - k) as usize));
                    assert(pairs0.push(p) + prest =~= pairs0 + (seq![p] + prest));
                }
                i -= 1;
                j -= 1 + k;
            } else {
                let fwd = find_fwd_offset(dp, s, t, clamped, i, j, g, 1);
                if let Option::Some(k) = fwd {
                    proof {
                        lemma_first_fwd_characterized(s@, t@, clamped, gi, gj, 1);
                        assert(fwd_step_test(s@, t@, clamped, gi, gj, k as int));
                        assert(backtrack_choice(s@, t@, clamped, gi, gj)
                            == BacktrackChoice::ForwardMove(k as int));
                    }
                    pairs.push((i - 1, j + k - 1));
                    proof {
                        let ghost prest = pushed_pairs(s@, t@, clamped, gi - 1, gj + k as int);
                        let ghost p = (((i - 1) as usize), ((j + k - 1) as usize));
                        assert(pairs0.push(p) + prest =~= pairs0 + (seq![p] + prest));
                    }
                    i -= 1;
                    j += k;
                } else {
                    let sw = find_swap_offset(dp, s, t, clamped, i, j, g, 1);
                    if let Option::Some(k) = sw {
                        proof {
                            lemma_first_swap_characterized(s@, t@, clamped, gi, gj, 1);
                            assert(swap_step_test(s@, t@, clamped, gi, gj, k as int));
                            assert(backtrack_choice(s@, t@, clamped, gi, gj)
                                == BacktrackChoice::SwapMove(k as int));
                        }
                        pairs.push((i - 1, j - 1 - k));
                        pairs.push((i - 1 - k, j - 1));
                        proof {
                            let ghost prest = pushed_pairs(
                                s@,
                                t@,
                                clamped,
                                gi - 1 - k as int,
                                gj - 1 - k as int,
                            );
                            let ghost p1 = (((i - 1) as usize), ((j - 1 - k) as usize));
                            let ghost p2 = (((i - 1 - k) as usize), ((j - 1) as usize));
                            assert(pairs0.push(p1).push(p2) + prest =~= pairs0 + (seq![p1, p2]
                                + prest));
                        }
                        i -= 1 + k;
                        j -= 1 + k;
                    } else {
                        proof {
                            assert(backtrack_choice(s@, t@, clamped, gi, gj) is Stuck);
                            lemma_choice_not_stuck(s@, t@, clamped, gi, gj);
                        }
                        assert(false);
                        unreached::<()>();
                    }
                }
            }
        }
    }
    // Unconsumed target prefix: insertions wherever the row-0 cost steps.
    while j > 0
        invariant
            i <= n,
            j <= m,
            i == 0 || j == 0,
            pushed_edits(s@, t@, clamped, gn, gm) == edits@ + pushed_edits(
                s@,
                t@,
                clamped,
                i as int,
                j as int,
            ),
            pushed_pairs(s@, t@, clamped, gn, gm) == pairs@ + pushed_pairs(
                s@,
                t@,
                clamped,
                i as int,
                j as int,
            ),
        decreases j,
    {
        let ghost gj = j as int;
        let ghost edits0 = edits@;
        let g = read_cell(dp, s, t, clamped, i, j, Ghost(full_li), Ghost(0));
        let gl = read_cell(dp, s, t, clamped, i, j - 1, Ghost(full_li), Ghost(0));
        if g != gl {
            edits.push(OperationRecord::new(KIND_INSERTION, j - 1, Option::Some(j - 1), 0, j - 1));
        }
        proof {
            let ghost erest = pushed_edits(s@, t@, clamped, 0, gj - 1);
            if g != gl {
                let ghost e = crate::script::trailing_insertion_record(gj);
                assert(edits0.push(e) + erest =~= edits0 + (seq![e] + erest));
            } else {
                assert(edits0 + erest =~= edits0 + (Seq::<OperationRecord>::empty() + erest));
            }
        }
        j -= 1;
    }
    // Unconsumed source prefix: deletions wherever the column-0 cost steps.
    while i > 0
        invariant
            i <= n,
            j == 0,
            pushed_edits(s@, t@, clamped, gn, gm) == edits@ + pushed_edits(
                s@,
                t@,
                clamped,
                i as int,
                0,
            ),
            pushed_pairs(s@, t@, clamped, gn, gm) == pairs@ + pushed_pairs(
                s@,
                t@,
                clamped,
                i as int,
                0,
            ),
        decreases i,
    {
        let ghost gi = i as int;
        let ghost edits0 = edits@;
        let g = read_cell(dp, s, t, clamped, i, 0, Ghost(full_li), Ghost(0));
        let gu = read_cell(dp, s, t, clamped, i - 1, 0, Ghost(full_li), Ghost(0));
        if g != gu {
            edits.push(OperationRecord::new(KIND_DELETION, i - 1, Option::None, i - 1, j));
        }
        proof {
            let ghost erest = pushed_edits(s@, t@, clamped, gi - 1, 0);
            if g != gu {
                let ghost e = crate::script::trailing_deletion_record(gi, 0);
                assert(edits0.push(e) + erest =~= edits0 + (seq![e] + erest));
            } else {
                assert(edits0 + erest =~= edits0 + (Seq::<OperationRecord>::empty() + erest));
            }
        }
        i -= 1;
    }
    proof {
        assert(pushed_edits(s@, t@, clamped, 0, 0) =~= Seq::<OperationRecord>::empty());
        assert(pushed_pairs(s@, t@, clamped, 0, 0) =~= Seq::<(usize, usize)>::empty());
        assert(edits@ + Seq::<OperationRecord>::empty() =~= edits@);
        assert(pairs@ + Seq::<(usize, usize)>::empty() =~= pairs@);
    }
    let rev_edits = reversed(edits);
    let rev_pairs = reversed(pairs);
    (rev_edits, rev_pairs, min_cost)
}

/// Total cost of the cheapest edit explanation of `s` as `t`: the grid
/// value at (n, m).  An empty target costs one deletion per source pitch.
pub open spec fn spec_align_cost(s: Seq<i64>, t: Seq<i64>, range: Option<(usize, usize)>) -> int {
    grid_cost(s, t, spec_clamp_range(range, t.len() as int), s.len() as int, t.len() as int)
}

/// The edit script of the deterministic backtrack, in forward time order.
pub open spec fn spec_align_edits(s: Seq<i64>, t: Seq<i64>, range: Option<(usize, usize)>) -> Seq<
    OperationRecord,
> {
    pushed_edits(
        s,
        t,
        spec_clamp_range(range, t.len() as int),
        s.len() as int,
        t.len() as int,
    ).reverse()
}

/// The aligned index pairs of the deterministic backtrack, in forward time
/// order.
pub open spec fn spec_align_pairs(s: Seq<i64>, t: Seq<i64>, range: Option<(usize, usize)>) -> Seq<
    (usize, usize),
> {
    pushed_pairs(
        s,
        t,
        spec_clamp_range(range, t.len() as int),
        s.len() as int,
        t.len() as int,
    ).reverse()
}

/// Aligns `s_pitches` against `t_pitches`: fills the bounded-window cost
/// grid, backtracks deterministically, and returns the edit script, the
/// aligned index pairs and the total cost, exactly as the recurrence and
/// policy models state them.  The result is a pure function of the inputs.
pub fn edit_dist(
    s_pitches: &Vec<i64>,
    t_pitches: &Vec<i64>,
    free_insertion_range: Option<(usize, usize)>,
) -> (r: (Vec<OperationRecord>, Vec<(usize, usize)>, i64))
    requires
        (s_pitches@.len() + 1) * (t_pitches@.len() + 1) <= usize::MAX,
        (OP_COST as int) * (s_pitches@.len() + t_pitches@.len()) <= i64::MAX,
    ensures
        r.0@ == spec_align_edits(s_pitches@, t_pitches@, free_insertion_range),
        r.1@ == spec_align_pairs(s_pitches@, t_pitches@, free_insertion_range),
        r.2 == spec_align_cost(s_pitches@, t_pitches@, free_insertion_range),
        r.2 >= 0,
{
    let m = t_pitches.len();
    let clamped = clamp_range(free_insertion_range, m);
    let dp = fill_cost_grid(s_pitches, t_pitches, clamped);
    proof {
        lemma_grid_cost_bounds(s_pitches@, t_pitches@, clamped, s_pitches@.len() as int, m as int);
    }
    backtrack(&dp, s_pitches, t_pitches, clamped)
}

} // verus!
