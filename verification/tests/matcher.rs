use gsp_support::matcher::is_subseq_contiguous;

#[test]
fn empty_needle_never_matches() {
    let none: [u32; 0] = [];
    assert!(!is_subseq_contiguous(&none, &none));
    assert!(!is_subseq_contiguous(&[7], &none));
    assert!(!is_subseq_contiguous(&[1, 2, 3, 4], &none));
}

#[test]
fn longer_needle_never_matches() {
    let none: [u32; 0] = [];
    assert!(!is_subseq_contiguous(&none, &[1]));
    assert!(!is_subseq_contiguous(&[1], &[1, 1]));
    assert!(!is_subseq_contiguous(&[1, 2, 3], &[1, 2, 3, 4]));
}

#[test]
fn contiguous_run_matches() {
    assert!(is_subseq_contiguous(&[1, 2, 3, 4], &[2, 3]));
}

#[test]
fn items_with_a_gap_do_not_match() {
    assert!(!is_subseq_contiguous(&[1, 2, 3, 4], &[2, 4]));
}

#[test]
fn whole_hay_matches_itself() {
    assert!(is_subseq_contiguous(&[5, 6, 7], &[5, 6, 7]));
    assert!(is_subseq_contiguous(&[9], &[9]));
}

#[test]
fn run_at_either_end_matches() {
    assert!(is_subseq_contiguous(&[1, 2, 3, 4], &[1, 2]));
    assert!(is_subseq_contiguous(&[1, 2, 3, 4], &[3, 4]));
    assert!(is_subseq_contiguous(&[1, 2, 3, 4], &[4]));
    assert!(is_subseq_contiguous(&[1, 2, 3, 4], &[1]));
}

#[test]
fn order_matters() {
    assert!(!is_subseq_contiguous(&[1, 2, 3, 4], &[3, 2]));
    assert!(!is_subseq_contiguous(&[1, 2], &[2, 1]));
}

#[test]
fn equal_ends_with_different_middle_do_not_match() {
    assert!(!is_subseq_contiguous(&[1, 9, 3], &[1, 2, 3]));
    assert!(!is_subseq_contiguous(&[0, 1, 9, 3, 1, 8, 3], &[1, 2, 3]));
    assert!(is_subseq_contiguous(&[0, 1, 9, 3, 1, 2, 3], &[1, 2, 3]));
}

#[test]
fn later_window_is_found_after_failed_ones() {
    assert!(is_subseq_contiguous(&[1, 1, 1, 2], &[1, 2]));
    assert!(is_subseq_contiguous(&[2, 2, 2, 3, 2, 2, 4], &[2, 2, 4]));
    assert!(!is_subseq_contiguous(&[2, 2, 2, 3, 2, 2], &[2, 2, 4]));
}

#[test]
fn repeated_items_match_as_runs() {
    assert!(is_subseq_contiguous(&[3, 3, 3], &[3, 3]));
    assert!(!is_subseq_contiguous(&[3, 1, 3], &[3, 3]));
}

#[test]
fn missing_item_does_not_match() {
    assert!(!is_subseq_contiguous(&[1, 2, 3, 4], &[5]));
    assert!(!is_subseq_contiguous(&[1, 2, 3, 4], &[4, 5]));
}

#[test]
fn largest_item_values_are_compared_exactly() {
    assert!(is_subseq_contiguous(&[0, u32::MAX, 0], &[u32::MAX, 0]));
    assert!(!is_subseq_contiguous(&[0, u32::MAX - 1, 0], &[u32::MAX, 0]));
}
