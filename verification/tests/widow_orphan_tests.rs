//! Tests for the widow/orphan split resolver. `Some(k)` = split after line
//! `k`; `None` = defer the whole paragraph (orphan control).

use loki_layout::widow_orphan::resolve_split;

/// `n` uniform 10 pt lines: line `i` spans `(i*10, (i+1)*10)`.
fn lines(n: usize) -> Vec<(f32, f32)> {
    (0..n)
        .map(|i| (i as f32 * 10.0, (i as f32 + 1.0) * 10.0))
        .collect()
}

/// The first line of the fragment starting at paragraph-local `frag_start`:
/// the first line whose bottom lies below it.
fn start_line(line_boundaries: &[(f32, f32)], frag_start: f32) -> usize {
    line_boundaries
        .iter()
        .position(|&(_, max)| max > frag_start)
        .unwrap_or(0)
}

fn split(
    line_boundaries: &[(f32, f32)],
    frag_start: f32,
    natural_k: usize,
    orphan_min: usize,
    widow_min: usize,
    mid_page: bool,
) -> Option<usize> {
    resolve_split(
        line_boundaries.len(),
        start_line(line_boundaries, frag_start),
        natural_k,
        orphan_min,
        widow_min,
        mid_page,
    )
}

#[test]
fn no_adjustment_when_both_sides_are_comfortable() {
    // 8 lines, 5 fit (natural_k = 4): 5 on this page, 3 on the next — no widow.
    assert_eq!(split(&lines(8), 0.0, 4, 2, 2, false), Some(4));
}

#[test]
fn widow_pulls_a_line_down_to_keep_two_on_the_tail() {
    // 5 lines, 4 fit (natural_k = 3) ⇒ tail would be a lone line 4 (widow).
    assert_eq!(split(&lines(5), 0.0, 3, 2, 2, false), Some(2));
}

#[test]
fn orphan_defers_the_whole_paragraph_mid_page() {
    // First fragment, only line 0 fits, placed mid-page ⇒ defer.
    assert_eq!(split(&lines(5), 0.0, 0, 2, 2, true), None);
}

#[test]
fn orphan_does_not_defer_at_a_page_top() {
    assert_eq!(split(&lines(5), 0.0, 0, 2, 2, false), Some(0));
}

#[test]
fn widow_fix_that_creates_an_orphan_defers_the_whole_paragraph() {
    // 3 lines, 2 fit, mid-page: the widow fix would strand a lone first line.
    assert_eq!(split(&lines(3), 0.0, 1, 2, 2, true), None);
}

#[test]
fn disabled_control_keeps_the_natural_split() {
    assert_eq!(split(&lines(5), 0.0, 3, 0, 0, true), Some(3));
    assert_eq!(split(&lines(5), 0.0, 0, 0, 0, true), Some(0));
}

#[test]
fn continuation_fragment_applies_widow_but_not_orphan() {
    // frag_start = 25 ⇒ this fragment begins at line 2 (max 30 > 25).
    assert_eq!(split(&lines(5), 25.0, 3, 2, 2, true), Some(2));
}

#[test]
fn empty_paragraph_is_a_no_op() {
    assert_eq!(split(&[], 0.0, 0, 2, 2, true), Some(0));
}

#[test]
fn a_short_paragraph_keeps_all_but_its_first_line_on_the_tail() {
    // 3 lines, 2 fit, widow_min 4: the tail cannot reach four lines, so the
    // split moves to line 0 and the tail keeps the other two.
    assert_eq!(resolve_split(3, 0, 1, 0, 4, false), Some(0));
}

#[test]
fn widow_control_never_moves_before_the_fragment_start() {
    // The fragment starts at line 3; pulling to line 2 would re-split lines
    // already placed, so the natural split stands.
    assert_eq!(resolve_split(5, 3, 3, 2, 2, true), Some(3));
}

#[test]
fn a_page_top_fragment_is_never_deferred() {
    for k in 0..6 {
        assert!(resolve_split(6, 0, k, 5, 5, false).is_some());
    }
}
