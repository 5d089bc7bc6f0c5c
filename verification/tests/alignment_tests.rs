use scoring::alignment::edit_dist;
use scoring::costs::{MOVE_SWAP_COST, OP_COST};
use scoring::script::{KIND_DELETION, KIND_INSERTION, KIND_SUBSTITUTION};

#[test]
fn identity_alignment_is_free() {
    let s: Vec<i64> = vec![60, 62, 64, 65];
    let (edits, pairs, cost) = edit_dist(&s, &s, None);
    assert_eq!(cost, 0);
    assert!(edits.is_empty());
    assert_eq!(pairs, vec![(0, 0), (1, 1), (2, 2), (3, 3)]);
}

#[test]
fn identity_of_empty_sequences() {
    let s: Vec<i64> = vec![];
    let (edits, pairs, cost) = edit_dist(&s, &s, None);
    assert_eq!(cost, 0);
    assert!(edits.is_empty());
    assert!(pairs.is_empty());
}

#[test]
fn swap_is_detected_and_cheap() {
    let s: Vec<i64> = vec![60, 62];
    let t: Vec<i64> = vec![62, 60];
    let (edits, pairs, cost) = edit_dist(&s, &t, None);
    assert_eq!(cost, MOVE_SWAP_COST);
    assert_ne!(cost, 2 * OP_COST);
    assert!(pairs.contains(&(0, 1)));
    assert!(pairs.contains(&(1, 0)));
    assert_eq!(pairs.len(), 2);
    assert!(edits.is_empty());
}

#[test]
fn pure_insertion_of_whole_target() {
    let s: Vec<i64> = vec![];
    let t: Vec<i64> = vec![60, 62, 64];
    let (edits, pairs, cost) = edit_dist(&s, &t, None);
    assert_eq!(cost, 3 * OP_COST);
    assert!(pairs.is_empty());
    assert_eq!(edits.len(), 3);
    for (idx, e) in edits.iter().enumerate() {
        assert_eq!(e.kind, KIND_INSERTION);
        assert_eq!(e.t_index, Some(idx));
        assert_eq!(e.t_pos, idx);
        assert_eq!(e.pos, 0);
    }
}

#[test]
fn empty_target_deletes_every_source_pitch() {
    let s: Vec<i64> = vec![60, 62];
    let t: Vec<i64> = vec![];
    let (edits, pairs, cost) = edit_dist(&s, &t, None);
    assert_eq!(cost, 2 * OP_COST);
    assert_eq!(edits.len(), 2);
    for (idx, e) in edits.iter().enumerate() {
        assert_eq!(e.kind, KIND_DELETION);
        assert_eq!(e.s_index, idx);
        assert_eq!(e.t_index, None);
        assert_eq!(e.pos, idx);
        assert_eq!(e.t_pos, 0);
    }
    assert!(pairs.is_empty());
}

#[test]
fn substitution_record_fields() {
    let s: Vec<i64> = vec![60];
    let t: Vec<i64> = vec![61];
    let (edits, pairs, cost) = edit_dist(&s, &t, None);
    assert_eq!(cost, OP_COST);
    assert_eq!(edits.len(), 1);
    assert_eq!(edits[0].kind, KIND_SUBSTITUTION);
    assert_eq!(edits[0].s_index, 0);
    assert_eq!(edits[0].t_index, Some(0));
    assert_eq!(edits[0].pos, 0);
    assert_eq!(edits[0].t_pos, 0);
    assert_eq!(pairs, vec![(0, 0)]);
}

#[test]
fn trailing_deletion_is_discounted() {
    let s: Vec<i64> = vec![1, 2];
    let t: Vec<i64> = vec![1];
    let (edits, pairs, cost) = edit_dist(&s, &t, None);
    assert_eq!(cost, 1);
    assert_eq!(edits.len(), 1);
    assert_eq!(edits[0].kind, KIND_DELETION);
    assert_eq!(edits[0].s_index, 1);
    assert_eq!(edits[0].t_index, None);
    assert_eq!(pairs, vec![(0, 0)]);
}

#[test]
fn free_insertion_range_discounts_insertions() {
    let s: Vec<i64> = vec![];
    let t: Vec<i64> = vec![60, 62];
    let (_, _, cost) = edit_dist(&s, &t, Some((0, 2)));
    assert_eq!(cost, 2);
    let (_, _, partial) = edit_dist(&s, &t, Some((1, 2)));
    assert_eq!(partial, OP_COST + 1);
}

#[test]
fn malformed_free_insertion_range_is_ignored() {
    let s: Vec<i64> = vec![];
    let t: Vec<i64> = vec![60, 62];
    let (_, _, empty_range) = edit_dist(&s, &t, Some((2, 2)));
    assert_eq!(empty_range, 2 * OP_COST);
    let (_, _, inverted) = edit_dist(&s, &t, Some((2, 1)));
    assert_eq!(inverted, 2 * OP_COST);
    let (_, _, outside) = edit_dist(&s, &t, Some((5, 9)));
    assert_eq!(outside, 2 * OP_COST);
}

#[test]
fn cost_is_nonnegative_and_bounded_by_levenshtein() {
    let s: Vec<i64> = vec![60, 62];
    let t: Vec<i64> = vec![62, 60];
    let (_, _, cost) = edit_dist(&s, &t, None);
    // The naive grid without the window would charge two substitutions.
    assert!(cost >= 0);
    assert!(cost <= 2 * OP_COST);
}

#[test]
fn repeated_calls_are_deterministic() {
    let s: Vec<i64> = vec![60, 64, 62, 65, 67];
    let t: Vec<i64> = vec![60, 62, 64, 67, 69];
    let (e1, p1, c1) = edit_dist(&s, &t, None);
    let (e2, p2, c2) = edit_dist(&s, &t, None);
    assert_eq!(c1, c2);
    assert_eq!(p1, p2);
    assert_eq!(e1.len(), e2.len());
    for (a, b) in e1.iter().zip(e2.iter()) {
        assert_eq!(a.kind, b.kind);
        assert_eq!(a.s_index, b.s_index);
        assert_eq!(a.t_index, b.t_index);
        assert_eq!(a.pos, b.pos);
        assert_eq!(a.t_pos, b.t_pos);
    }
}

#[test]
fn mixed_edit_script_is_reported_in_forward_order() {
    // The cheapest explanation is a backward move of the opening pitch plus
    // two trailing deletions, both discounted in the final column: the
    // backtrack emits the deletions newest-first and the result is reversed
    // into forward time order.
    let s: Vec<i64> = vec![60, 62, 64];
    let t: Vec<i64> = vec![60, 63, 64];
    let (edits, pairs, cost) = edit_dist(&s, &t, None);
    assert_eq!(cost, MOVE_SWAP_COST + 1 + 1);
    assert_eq!(edits.len(), 2);
    assert_eq!(edits[0].kind, KIND_DELETION);
    assert_eq!(edits[0].s_index, 1);
    assert_eq!(edits[1].kind, KIND_DELETION);
    assert_eq!(edits[1].s_index, 2);
    assert_eq!(pairs, vec![(0, 0)]);
}

#[test]
fn all_three_move_kinds_appear_in_one_walk() {
    // The walk takes a backward move, a forward move and a swap, each at
    // MOVE_SWAP_COST, and needs no edit records at all.
    let s: Vec<i64> = vec![60, 61, 60, 60];
    let t: Vec<i64> = vec![61, 60, 62, 60];
    let (edits, pairs, cost) = edit_dist(&s, &t, None);
    assert_eq!(cost, 3 * MOVE_SWAP_COST);
    assert!(edits.is_empty());
    assert_eq!(pairs, vec![(0, 1), (1, 0), (2, 1), (3, 1)]);
    for &(a, b) in pairs.iter() {
        assert_eq!(s[a], t[b]);
    }
}

#[test]
fn substitution_beats_moves_when_pitches_are_unrelated() {
    let s: Vec<i64> = vec![60, 62, 64, 65];
    let t: Vec<i64> = vec![60, 63, 64, 65];
    let (edits, pairs, cost) = edit_dist(&s, &t, None);
    assert_eq!(cost, OP_COST);
    assert_eq!(edits.len(), 1);
    assert_eq!(edits[0].kind, KIND_SUBSTITUTION);
    assert_eq!(edits[0].s_index, 1);
    assert_eq!(edits[0].t_index, Some(1));
    assert_eq!(pairs, vec![(0, 0), (1, 1), (2, 2), (3, 3)]);
}
