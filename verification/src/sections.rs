//! Integer bookkeeping of the tempo segmentation: parameter clamping, the
//! back-pointer walk that turns the change-point table into segment
//! ranges, and the source-index bounds of a section.
//!
//! The segmentation itself scores candidate segments with float
//! arithmetic; what it decides is recorded in an integer back-pointer
//! table, and everything from that table on is verified here.  A tempo
//! section covers a contiguous range `[start, end)` of aligned pairs and
//! is reported under the source indices of the pairs at its two ends; its
//! tempo value is a mean over the smoothed offset signal and lives with
//! the caller that owns that signal.

use vstd::prelude::*;

verus! {

/// `value` clamped to `[1, len]`: segmentation lengths and smoothing
/// windows are at least one sample and at most the whole signal.
pub fn clamp_to_len(value: usize, len: usize) -> (r: usize)
    ensures
        r as int == ({
            let floored: int = if value >= 1 {
                value as int
            } else {
                1
            };
            if floored <= len {
                floored
            } else {
                len as int
            }
        }),
{
    let floored = if value >= 1 {
        value
    } else {
        1
    };
    if floored <= len {
        floored
    } else {
        len
    }
}

/// Segment ranges read off the change-point back-pointer table from
/// position `idx` down to 0, in ascending order; `None` when the chain
/// stalls before reaching 0 (a back pointer missing, or one that fails to
/// move left).
pub open spec fn spec_segment_chain(prev: Seq<Option<usize>>, idx: int) -> Option<
    Seq<(usize, usize)>,
>
    decreases idx,
{
    match prev[idx] {
        Option::None => if idx == 0 {
            Option::Some(Seq::empty())
        } else {
            Option::None
        },
        Option::Some(start) => if start == 0 {
            Option::Some(seq![(0usize, idx as usize)])
        } else if (start as int) < idx {
            match spec_segment_chain(prev, start as int) {
                Option::None => Option::None,
                Option::Some(rest) => Option::Some(rest.push((start, idx as usize))),
            }
        } else {
            Option::None
        },
    }
}

/// The chosen partition of `[0, n)`: the back-pointer chain from `n`, or
/// the single whole-range segment when the table has no entry at `n` or
/// the chain stalls.
pub open spec fn spec_collect_segments(prev: Seq<Option<usize>>, n: int) -> Seq<(usize, usize)> {
    if prev[n] is None {
        seq![(0usize, n as usize)]
    } else {
        match spec_segment_chain(prev, n) {
            Option::Some(chain) => if chain.len() == 0 {
                seq![(0usize, n as usize)]
            } else {
                chain
            },
            Option::None => seq![(0usize, n as usize)],
        }
    }
}

/// Walks the back-pointer chain from `idx`, returning the segments in
/// ascending order, or `None` when the chain stalls.
fn segment_chain(prev: &Vec<Option<usize>>, idx: usize) -> (r: Option<Vec<(usize, usize)>>)
    requires
        idx < prev@.len(),
    ensures
        match r {
            Option::Some(v) => spec_segment_chain(prev@, idx as int) == Option::Some(v@),
            Option::None => spec_segment_chain(prev@, idx as int) is None,
        },
    decreases idx,
{
    match prev[idx] {
        Option::None => {
            if idx == 0 {
                let v: Vec<(usize, usize)> = Vec::new();
                proof {
                    assert(v@ =~= Seq::<(usize, usize)>::empty());
                }
                Option::Some(v)
            } else {
                Option::None
            }
        },
        Option::Some(start) => {
            if start == 0 {
                let mut v: Vec<(usize, usize)> = Vec::new();
                v.push((0, idx));
                proof {
                    assert(v@ =~= seq![(0usize, idx)]);
                }
                Option::Some(v)
            } else if start < idx {
                match segment_chain(prev, start) {
                    Option::None => Option::None,
                    Option::Some(mut v) => {
                        v.push((start, idx));
                        Option::Some(v)
                    },
                }
            } else {
                Option::None
            }
        },
    }
}

/// Reads the chosen partition of `[0, n)` off the change-point
/// back-pointer table: the chain of `(start, end)` ranges ending at `n`,
/// in ascending order, or the single segment `(0, n)` when the table never
/// reached `n` or the chain stalls on the way down.
pub fn collect_segments(prev: &Vec<Option<usize>>, n: usize) -> (r: Vec<(usize, usize)>)
    requires
        prev@.len() == n + 1,
    ensures
        r@ == spec_collect_segments(prev@, n as int),
{
    let whole: (usize, usize) = (0, n);
    if prev[n].is_none() {
        let mut v: Vec<(usize, usize)> = Vec::new();
        v.push(whole);
        proof {
            assert(v@ =~= seq![(0usize, n)]);
        }
        return v;
    }
    match segment_chain(prev, n) {
        Option::Some(segments) => {
            if segments.len() == 0 {
                let mut v: Vec<(usize, usize)> = Vec::new();
                v.push(whole);
                proof {
                    assert(v@ =~= seq![(0usize, n)]);
                }
                v
            } else {
                segments
            }
        },
        Option::None => {
            let mut v: Vec<(usize, usize)> = Vec::new();
            v.push(whole);
            proof {
                assert(v@ =~= seq![(0usize, n)]);
            }
            v
        },
    }
}

/// Source-index bounds of a section over `aligned[start..end]`: the source
/// member of the pair at `start` and of the pair at `end - 1`, falling back
/// to the first pair's source index when `start` is out of range and to the
/// last pair's when `end - 1` is.
pub fn section_source_bounds(aligned: &Vec<(usize, usize)>, start: usize, end: usize) -> (r: (
    usize,
    usize,
))
    requires
        aligned@.len() >= 1,
    ensures
        r.0 == (if (start as int) < aligned@.len() {
            aligned@[start as int].0
        } else {
            aligned@[0].0
        }),
        r.1 == ({
            let e = if end >= 1 {
                end as int - 1
            } else {
                0
            };
            if e < aligned@.len() {
                aligned@[e].0
            } else {
                aligned@[aligned@.len() - 1].0
            }
        }),
{
    let len = aligned.len();
    let lo = if start < len {
        aligned[start].0
    } else {
        aligned[0].0
    };
    let e = if end >= 1 {
        end - 1
    } else {
        0
    };
    let hi = if e < len {
        aligned[e].0
    } else {
        aligned[len - 1].0
    };
    (lo, hi)
}

} // verus!
