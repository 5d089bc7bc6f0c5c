//! The deterministic backtrack policy and its output model.
//!
//! Starting at the bottom-right cell of the cost grid, the backtrack tests a
//! fixed candidate order at each cell — diagonal, deletion, insertion, then
//! backward moves, forward moves and swaps with the smallest offset first —
//! and takes the first candidate that reproduces the cell's value exactly.
//! `pushed_edits` and `pushed_pairs` give the edit records and aligned index
//! pairs in the order the walk emits them (newest step first); the final,
//! forward-time output is their reverse.

use vstd::prelude::*;

use crate::cost_grid::{back_move_cost, fwd_move_cost, grid_cost, swap_applies, swap_cost};
use crate::cost_grid::{base_min, lemma_window_min_attained, window_min};
use crate::cost_grid::{back_move_applies, fwd_move_applies};
use crate::costs::MAX_MOVE_SWAP;
use crate::costs::{spec_deletion_cost, spec_insertion_cost, spec_substitution_cost};

verus! {

/// Kind tag of a substitution record.
pub const KIND_SUBSTITUTION: u8 = 0;

/// Kind tag of a deletion record.
pub const KIND_DELETION: u8 = 1;

/// Kind tag of an insertion record.
pub const KIND_INSERTION: u8 = 2;

/// One edit operation of the script, produced during backtracking.
///
/// `kind` is `KIND_SUBSTITUTION`, `KIND_DELETION` or `KIND_INSERTION`;
/// `t_index` is absent for deletions.  `pos` and `t_pos` record the grid
/// cell at which the record was produced (traceability, not semantics).
#[derive(Clone)]
pub struct OperationRecord {
    pub kind: u8,
    pub s_index: usize,
    pub t_index: Option<usize>,
    pub pos: usize,
    pub t_pos: usize,
}

impl OperationRecord {
    /// Builds a record from its fields.
    pub fn new(kind: u8, s_index: usize, t_index: Option<usize>, pos: usize, t_pos: usize) -> (r:
        Self)
        ensures
            r == (OperationRecord { kind, s_index, t_index, pos, t_pos }),
    {
        Self { kind, s_index, t_index, pos, t_pos }
    }
}

/// The step the backtrack policy takes at a cell, with the window offset
/// for moves and swaps.  `Stuck` — the grid value matching no candidate —
/// is proved unreachable on a well-formed grid.
pub enum BacktrackChoice {
    Diagonal,
    Deletion,
    Insertion,
    BackwardMove(int),
    ForwardMove(int),
    SwapMove(int),
    Stuck,
}

/// The backtrack's test for a backward move with offset `q`: the walk does
/// not re-check the pitches, only the grid arithmetic.
pub open spec fn back_step_test(
    s: Seq<i64>,
    t: Seq<i64>,
    clamped: Option<(usize, usize)>,
    i: int,
    j: int,
    q: int,
) -> bool {
    j >= 1 + q && grid_cost(s, t, clamped, i, j) == back_move_cost(s, t, clamped, i, j, q)
}

/// The backtrack's test for a forward move with offset `q`.
pub open spec fn fwd_step_test(
    s: Seq<i64>,
    t: Seq<i64>,
    clamped: Option<(usize, usize)>,
    i: int,
    j: int,
    q: int,
) -> bool {
    j + q <= t.len() && grid_cost(s, t, clamped, i, j) == fwd_move_cost(s, t, clamped, i, j, q)
}

/// The backtrack's test for a swap with offset `q`: here the pitch
/// conditions are re-checked in addition to the grid arithmetic.
pub open spec fn swap_step_test(
    s: Seq<i64>,
    t: Seq<i64>,
    clamped: Option<(usize, usize)>,
    i: int,
    j: int,
    q: int,
) -> bool {
    swap_applies(s, t, i, j, q) && grid_cost(s, t, clamped, i, j) == swap_cost(
        s,
        t,
        clamped,
        i,
        j,
        q,
    )
}

/// Smallest offset `q0 <= q <= MAX_MOVE_SWAP` whose backward-move test
/// passes, if any.
pub open spec fn first_back_offset(
    s: Seq<i64>,
    t: Seq<i64>,
    clamped: Option<(usize, usize)>,
    i: int,
    j: int,
    q0: int,
) -> Option<int>
    decreases (MAX_MOVE_SWAP as int) - q0 + 1,
{
    if q0 > MAX_MOVE_SWAP as int {
        Option::None
    } else if back_step_test(s, t, clamped, i, j, q0) {
        Option::Some(q0)
    } else {
        first_back_offset(s, t, clamped, i, j, q0 + 1)
    }
}

/// Smallest offset `q0 <= q <= MAX_MOVE_SWAP` whose forward-move test
/// passes, if any.
pub open spec fn first_fwd_offset(
    s: Seq<i64>,
    t: Seq<i64>,
    clamped: Option<(usize, usize)>,
    i: int,
    j: int,
    q0: int,
) -> Option<int>
    decreases (MAX_MOVE_SWAP as int) - q0 + 1,
{
    if q0 > MAX_MOVE_SWAP as int {
        Option::None
    } else if fwd_step_test(s, t, clamped, i, j, q0) {
        Option::Some(q0)
    } else {
        first_fwd_offset(s, t, clamped, i, j, q0 + 1)
    }
}

/// Smallest offset `q0 <= q <= MAX_MOVE_SWAP` whose swap test passes, if
/// any.
pub open spec fn first_swap_offset(
    s: Seq<i64>,
    t: Seq<i64>,
    clamped: Option<(usize, usize)>,
    i: int,
    j: int,
    q0: int,
) -> Option<int>
    decreases (MAX_MOVE_SWAP as int) - q0 + 1,
{
    if q0 > MAX_MOVE_SWAP as int {
        Option::None
    } else if swap_step_test(s, t, clamped, i, j, q0) {
        Option::Some(q0)
    } else {
        first_swap_offset(s, t, clamped, i, j, q0 + 1)
    }
}

/// The step taken at interior cell (i, j): the first candidate, in the
/// fixed policy order, that reproduces the cell's value.
pub open spec fn backtrack_choice(
    s: Seq<i64>,
    t: Seq<i64>,
    clamped: Option<(usize, usize)>,
    i: int,
    j: int,
) -> BacktrackChoice {
    let g = grid_cost(s, t, clamped, i, j);
    if g == grid_cost(s, t, clamped, i - 1, j - 1) + spec_substitution_cost(s, t, i, j) {
        BacktrackChoice::Diagonal
    } else if g == grid_cost(s, t, clamped, i - 1, j) + spec_deletion_cost(j, t.len() as int) {
        BacktrackChoice::Deletion
    } else if g == grid_cost(s, t, clamped, i, j - 1) + spec_insertion_cost(j - 1, clamped) {
        BacktrackChoice::Insertion
    } else {
        match first_back_offset(s, t, clamped, i, j, 1) {
            Option::Some(q) => BacktrackChoice::BackwardMove(q),
            Option::None => match first_fwd_offset(s, t, clamped, i, j, 1) {
                Option::Some(q) => BacktrackChoice::ForwardMove(q),
                Option::None => match first_swap_offset(s, t, clamped, i, j, 1) {
                    Option::Some(q) => BacktrackChoice::SwapMove(q),
                    Option::None => BacktrackChoice::Stuck,
                },
            },
        }
    }
}

/// Substitution record produced at interior cell (i, j).
pub open spec fn substitution_record(i: int, j: int) -> OperationRecord {
    OperationRecord {
        kind: KIND_SUBSTITUTION,
        s_index: (i - 1) as usize,
        t_index: Option::Some((j - 1) as usize),
        pos: (i - 1) as usize,
        t_pos: (j - 1) as usize,
    }
}

/// Deletion record produced at interior cell (i, j).
pub open spec fn deletion_record(i: int, j: int) -> OperationRecord {
    OperationRecord {
        kind: KIND_DELETION,
        s_index: (i - 1) as usize,
        t_index: Option::None,
        pos: (i - 1) as usize,
        t_pos: j as usize,
    }
}

/// Insertion record produced at interior cell (i, j).
pub open spec fn insertion_record(i: int, j: int) -> OperationRecord {
    OperationRecord {
        kind: KIND_INSERTION,
        s_index: (i - 1) as usize,
        t_index: Option::Some((j - 1) as usize),
        pos: i as usize,
        t_pos: (j - 1) as usize,
    }
}

/// Insertion record for an unconsumed target prefix position `j`.
pub open spec fn trailing_insertion_record(j: int) -> OperationRecord {
    OperationRecord {
        kind: KIND_INSERTION,
        s_index: (j - 1) as usize,
        t_index: Option::Some((j - 1) as usize),
        pos: 0,
        t_pos: (j - 1) as usize,
    }
}

/// Deletion record for an unconsumed source prefix position `i`, emitted at
/// target column `j`.
pub open spec fn trailing_deletion_record(i: int, j: int) -> OperationRecord {
    OperationRecord {
        kind: KIND_DELETION,
        s_index: (i - 1) as usize,
        t_index: Option::None,
        pos: (i - 1) as usize,
        t_pos: j as usize,
    }
}

/// Edit records emitted by the walk from cell (i, j) down to (0, 0), in
/// push order (the record of the current cell first).  A record whose cost
/// contribution is zero is suppressed.
pub open spec fn pushed_edits(
    s: Seq<i64>,
    t: Seq<i64>,
    clamped: Option<(usize, usize)>,
    i: int,
    j: int,
) -> Seq<OperationRecord>
    decreases i, j,
{
    if i >= 1 && j >= 1 {
        match backtrack_choice(s, t, clamped, i, j) {
            BacktrackChoice::Diagonal => (if spec_substitution_cost(s, t, i, j) != 0 {
                seq![substitution_record(i, j)]
            } else {
                Seq::empty()
            }) + pushed_edits(s, t, clamped, i - 1, j - 1),
            BacktrackChoice::Deletion => (if spec_deletion_cost(j, t.len() as int) != 0 {
                seq![deletion_record(i, j)]
            } else {
                Seq::empty()
            }) + pushed_edits(s, t, clamped, i - 1, j),
            BacktrackChoice::Insertion => (if spec_insertion_cost(j - 1, clamped) != 0 {
                seq![insertion_record(i, j)]
            } else {
                Seq::empty()
            }) + pushed_edits(s, t, clamped, i, j - 1),
            BacktrackChoice::BackwardMove(q) => pushed_edits(s, t, clamped, i - 1, j - 1 - q),
            BacktrackChoice::ForwardMove(q) => pushed_edits(s, t, clamped, i - 1, j + q),
            BacktrackChoice::SwapMove(q) => if 0 <= q && i >= 1 + q {
                pushed_edits(s, t, clamped, i - 1 - q, j - 1 - q)
            } else {
                Seq::empty()
            },
            BacktrackChoice::Stuck => Seq::empty(),
        }
    } else if j >= 1 {
        (if grid_cost(s, t, clamped, i, j) != grid_cost(s, t, clamped, i, j - 1) {
            seq![trailing_insertion_record(j)]
        } else {
            Seq::empty()
        }) + pushed_edits(s, t, clamped, i, j - 1)
    } else if i >= 1 {
        (if grid_cost(s, t, clamped, i, j) != grid_cost(s, t, clamped, i - 1, j) {
            seq![trailing_deletion_record(i, j)]
        } else {
            Seq::empty()
        }) + pushed_edits(s, t, clamped, i - 1, j)
    } else {
        Seq::empty()
    }
}

/// Aligned index pairs emitted by the walk from cell (i, j) down to (0, 0),
/// in push order.  A swap emits its two crossed pairs; deletions,
/// insertions and the trailing prefix loops emit none.
pub open spec fn pushed_pairs(
    s: Seq<i64>,
    t: Seq<i64>,
    clamped: Option<(usize, usize)>,
    i: int,
    j: int,
) -> Seq<(usize, usize)>
    decreases i, j,
{
    if i >= 1 && j >= 1 {
        match backtrack_choice(s, t, clamped, i, j) {
            BacktrackChoice::Diagonal => seq![((i - 1) as usize, (j - 1) as usize)] + pushed_pairs(
                s,
                t,
                clamped,
                i - 1,
                j - 1,
            ),
            BacktrackChoice::Deletion => pushed_pairs(s, t, clamped, i - 1, j),
            BacktrackChoice::Insertion => pushed_pairs(s, t, clamped, i, j - 1),
            BacktrackChoice::BackwardMove(q) => seq![((i - 1) as usize, (j - 1 - q) as usize)]
                + pushed_pairs(s, t, clamped, i - 1, j - 1 - q),
            BacktrackChoice::ForwardMove(q) => seq![((i - 1) as usize, (j + q - 1) as usize)]
                + pushed_pairs(s, t, clamped, i - 1, j + q),
            BacktrackChoice::SwapMove(q) => if 0 <= q && i >= 1 + q {
                seq![((i - 1) as usize, (j - 1 - q) as usize), ((i - 1 - q) as usize, (j - 1) as usize)]
                    + pushed_pairs(s, t, clamped, i - 1 - q, j - 1 - q)
            } else {
                Seq::empty()
            },
            BacktrackChoice::Stuck => Seq::empty(),
        }
    } else {
        Seq::empty()
    }
}

/// Characterizes the smallest-offset search for backward moves: a found
/// offset passes its test and no smaller offset does; a miss means no
/// offset passes at all.
pub proof fn lemma_first_back_characterized(
    s: Seq<i64>,
    t: Seq<i64>,
    clamped: Option<(usize, usize)>,
    i: int,
    j: int,
    q0: int,
)
    ensures
        match first_back_offset(s, t, clamped, i, j, q0) {
            Option::Some(k) => q0 <= k <= MAX_MOVE_SWAP && back_step_test(s, t, clamped, i, j, k)
                && (forall|q: int|
                q0 <= q < k ==> !(#[trigger] back_step_test(s, t, clamped, i, j, q))),
            Option::None => forall|q: int|
                q0 <= q <= MAX_MOVE_SWAP ==> !(#[trigger] back_step_test(s, t, clamped, i, j, q)),
        },
    decreases (MAX_MOVE_SWAP as int) - q0 + 1,
{
    if q0 > MAX_MOVE_SWAP as int {
    } else if back_step_test(s, t, clamped, i, j, q0) {
    } else {
        lemma_first_back_characterized(s, t, clamped, i, j, q0 + 1);
    }
}

/// Characterizes the smallest-offset search for forward moves.
pub proof fn lemma_first_fwd_characterized(
    s: Seq<i64>,
    t: Seq<i64>,
    clamped: Option<(usize, usize)>,
    i: int,
    j: int,
    q0: int,
)
    ensures
        match first_fwd_offset(s, t, clamped, i, j, q0) {
            Option::Some(k) => q0 <= k <= MAX_MOVE_SWAP && fwd_step_test(s, t, clamped, i, j, k)
                && (forall|q: int|
                q0 <= q < k ==> !(#[trigger] fwd_step_test(s, t, clamped, i, j, q))),
            Option::None => forall|q: int|
                q0 <= q <= MAX_MOVE_SWAP ==> !(#[trigger] fwd_step_test(s, t, clamped, i, j, q)),
        },
    decreases (MAX_MOVE_SWAP as int) - q0 + 1,
{
    if q0 > MAX_MOVE_SWAP as int {
    } else if fwd_step_test(s, t, clamped, i, j, q0) {
    } else {
        lemma_first_fwd_characterized(s, t, clamped, i, j, q0 + 1);
    }
}

/// Characterizes the smallest-offset search for swaps.
pub proof fn lemma_first_swap_characterized(
    s: Seq<i64>,
    t: Seq<i64>,
    clamped: Option<(usize, usize)>,
    i: int,
    j: int,
    q0: int,
)
    ensures
        match first_swap_offset(s, t, clamped, i, j, q0) {
            Option::Some(k) => q0 <= k <= MAX_MOVE_SWAP && swap_step_test(s, t, clamped, i, j, k)
                && (forall|q: int|
                q0 <= q < k ==> !(#[trigger] swap_step_test(s, t, clamped, i, j, q))),
            Option::None => forall|q: int|
                q0 <= q <= MAX_MOVE_SWAP ==> !(#[trigger] swap_step_test(s, t, clamped, i, j, q)),
        },
    decreases (MAX_MOVE_SWAP as int) - q0 + 1,
{
    if q0 > MAX_MOVE_SWAP as int {
    } else if swap_step_test(s, t, clamped, i, j, q0) {
    } else {
        lemma_first_swap_characterized(s, t, clamped, i, j, q0 + 1);
    }
}

/// On a grid filled by the recurrence the backtrack never sticks: the value
/// of an interior cell is always reproduced by some tested candidate.
pub proof fn lemma_choice_not_stuck(
    s: Seq<i64>,
    t: Seq<i64>,
    clamped: Option<(usize, usize)>,
    i: int,
    j: int,
)
    requires
        1 <= i,
        1 <= j <= t.len(),
    ensures
        !(backtrack_choice(s, t, clamped, i, j) is Stuck),
{
    let g = grid_cost(s, t, clamped, i, j);
    let kmax = MAX_MOVE_SWAP as nat;
    assert(g == window_min(s, t, clamped, i, j, kmax));
    lemma_window_min_attained(s, t, clamped, i, j, kmax);
    if backtrack_choice(s, t, clamped, i, j) is Stuck {
        lemma_first_back_characterized(s, t, clamped, i, j, 1);
        lemma_first_fwd_characterized(s, t, clamped, i, j, 1);
        lemma_first_swap_characterized(s, t, clamped, i, j, 1);
        if g == base_min(s, t, clamped, i, j) {
            assert(false);
        } else if exists|q: int|
            1 <= q <= kmax && #[trigger] fwd_move_applies(s, t, i, j, q) && g == fwd_move_cost(
                s,
                t,
                clamped,
                i,
                j,
                q,
            ) {
            let q = choose|q: int|
                1 <= q <= kmax && #[trigger] fwd_move_applies(s, t, i, j, q) && g == fwd_move_cost(
                    s,
                    t,
                    clamped,
                    i,
                    j,
                    q,
                );
            assert(fwd_step_test(s, t, clamped, i, j, q));
            assert(false);
        } else if exists|q: int|
            1 <= q <= kmax && #[trigger] back_move_applies(s, t, i, j, q) && g == back_move_cost(
                s,
                t,
                clamped,
                i,
                j,
                q,
            ) {
            let q = choose|q: int|
                1 <= q <= kmax && #[trigger] back_move_applies(s, t, i, j, q) && g
                    == back_move_cost(s, t, clamped, i, j, q);
            assert(back_step_test(s, t, clamped, i, j, q));
            assert(false);
        } else {
            let q = choose|q: int|
                1 <= q <= kmax && #[trigger] swap_applies(s, t, i, j, q) && g == swap_cost(
                    s,
                    t,
                    clamped,
                    i,
                    j,
                    q,
                );
            assert(swap_step_test(s, t, clamped, i, j, q));
            assert(false);
        }
    }
}

} // verus!
