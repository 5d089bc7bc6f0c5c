use scoring::sections::{clamp_to_len, collect_segments, section_source_bounds};

#[test]
fn section_bounds_of_full_range() {
    let aligned: Vec<(usize, usize)> = vec![(5, 0), (7, 1), (9, 2)];
    assert_eq!(section_source_bounds(&aligned, 0, 3), (5, 9));
}

#[test]
fn section_bounds_of_inner_range() {
    let aligned: Vec<(usize, usize)> = vec![(5, 0), (7, 1), (9, 2)];
    assert_eq!(section_source_bounds(&aligned, 1, 2), (7, 7));
}

#[test]
fn section_bounds_fall_back_when_out_of_range() {
    let aligned: Vec<(usize, usize)> = vec![(5, 0), (7, 1), (9, 2)];
    // Start beyond the alignment falls back to the first pair.
    assert_eq!(section_source_bounds(&aligned, 8, 3).0, 5);
    // End beyond the alignment falls back to the last pair.
    assert_eq!(section_source_bounds(&aligned, 0, 9).1, 9);
    // A zero end saturates to the pair at index 0.
    assert_eq!(section_source_bounds(&aligned, 0, 0).1, 5);
}

#[test]
fn clamp_to_len_floors_at_one_and_caps_at_len() {
    assert_eq!(clamp_to_len(0, 10), 1);
    assert_eq!(clamp_to_len(5, 10), 5);
    assert_eq!(clamp_to_len(15, 10), 10);
    assert_eq!(clamp_to_len(3, 0), 0);
}

#[test]
fn collect_segments_walks_the_back_pointer_chain() {
    // Chain: 10 <- 6 <- 0, giving the partition [(0, 6), (6, 10)].
    let mut prev: Vec<Option<usize>> = vec![None; 11];
    prev[6] = Some(0);
    prev[10] = Some(6);
    assert_eq!(collect_segments(&prev, 10), vec![(0, 6), (6, 10)]);
}

#[test]
fn collect_segments_falls_back_to_one_segment() {
    // No entry at the end of the table: the whole range is one segment.
    let prev: Vec<Option<usize>> = vec![None; 11];
    assert_eq!(collect_segments(&prev, 10), vec![(0, 10)]);
    // A chain that stalls midway falls back too.
    let mut stalled: Vec<Option<usize>> = vec![None; 11];
    stalled[10] = Some(4);
    assert_eq!(collect_segments(&stalled, 10), vec![(0, 10)]);
}
