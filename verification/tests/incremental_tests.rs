//! Tests for the decisions of incremental paginated relayout.

use loki_layout::incremental::{
    PageStart, PaginatedReuse, RelayoutStart, SectionDecision, SectionChange, begin_relayout,
    finish_relayout, lift_page_numbers, plan_section, assemble_checkpoints, assemble_pages, changed_section,
    checkpoints_before, incremental_eligible, new_page_total, plan_resume, resume_checkpoint,
    resync_page, reuse_verbatim, section_page_start, suffix_start,
};
use loki_layout::incremental_diff::{
    blocks_equal_from, common_prefix_len, common_suffix_len, note_comparisons,
};

fn cp(page: usize, section: usize, block: usize, state: u32) -> PageStart<u32> {
    PageStart { page_index: page, section_index: section, block_index: block, checkpoint: state }
}

fn sample() -> Vec<PageStart<u32>> {
    vec![
        cp(0, 0, 0, 10),
        cp(1, 0, 4, 11),
        cp(2, 0, 9, 12),
        cp(3, 1, 0, 20),
        cp(4, 1, 3, 21),
    ]
}

#[test]
fn prefix_and_suffix_bound_the_changed_range() {
    let old = [1, 2, 3, 4, 5];
    let new = [1, 2, 9, 4, 5];
    let mut n = 0u64;
    let p = common_prefix_len(&old, &new, &mut n);
    assert_eq!(p, 2);
    assert_eq!(n, 3, "two equal and one differing comparison");
    let s = common_suffix_len(&old, &new, p, &mut n);
    assert_eq!(s, 2);
    assert_eq!(n, 6);
}

#[test]
fn prefix_scan_of_identical_lists_counts_every_element() {
    let a = [7, 8, 9];
    let mut n = 0u64;
    assert_eq!(common_prefix_len(&a, &a, &mut n), 3);
    assert_eq!(n, 3);
}

#[test]
fn an_insertion_is_bounded_without_overlap() {
    let old = [1, 1, 1];
    let new = [1, 1, 1, 1];
    let mut n = 0u64;
    let p = common_prefix_len(&old, &new, &mut n);
    assert_eq!(p, 3);
    let s = common_suffix_len(&old, &new, p, &mut n);
    assert_eq!(s, 0);
}

#[test]
fn equal_from_counts_up_to_the_first_difference() {
    let mut n = 0u64;
    assert!(blocks_equal_from(&[1, 2, 3], &[0, 2, 3], 1, &mut n));
    assert_eq!(n, 2);
    assert!(!blocks_equal_from(&[1, 2, 3, 4], &[1, 2, 0, 0], 1, &mut n));
    assert_eq!(n, 4);
    assert!(!blocks_equal_from(&[1, 2], &[1, 2, 3], 0, &mut n));
    assert_eq!(n, 4, "a length mismatch compares nothing");
    assert!(blocks_equal_from(&[1], &[1], 5, &mut n));
    assert_eq!(n, 4);
}

#[test]
fn the_comparison_counter_wraps() {
    let mut n = u64::MAX;
    note_comparisons(&mut n, 2);
    assert_eq!(n, 1);
}

#[test]
fn eligibility_needs_editing_no_notes_checkpoints_and_the_same_sections() {
    assert!(incremental_eligible(true, false, 3, 2, 2));
    assert!(!incremental_eligible(false, false, 3, 2, 2));
    assert!(!incremental_eligible(true, true, 3, 2, 2));
    assert!(!incremental_eligible(true, false, 0, 2, 2));
    assert!(!incremental_eligible(true, false, 3, 2, 3));
}

#[test]
fn one_changed_section_is_found_and_two_are_structural() {
    assert!(matches!(changed_section(&[false, false], &[false, false]), SectionChange::Unchanged));
    assert!(matches!(changed_section(&[false, true, false], &[false, false, false]), SectionChange::One(1)));
    assert!(matches!(changed_section(&[true, true], &[false, false]), SectionChange::Restructured));
    assert!(matches!(changed_section(&[false, true], &[false, true]), SectionChange::Restructured));
}

#[test]
fn section_starts_and_resume_points_come_from_the_checkpoints() {
    let cps = sample();
    assert_eq!(section_page_start(&cps, 0), Some(0));
    assert_eq!(section_page_start(&cps, 1), Some(3));
    assert_eq!(section_page_start(&cps, 2), None);
    assert_eq!(resume_checkpoint(&cps, 0, 5), Some(1));
    assert_eq!(resume_checkpoint(&cps, 0, 100), Some(2));
    assert_eq!(resume_checkpoint(&cps, 1, 2), Some(3));
    assert_eq!(resume_checkpoint(&cps, 2, 0), None);
    assert_eq!(checkpoints_before(&cps, 2), 2);
    assert_eq!(checkpoints_before(&cps, 0), 0);
    assert_eq!(checkpoints_before(&cps, 99), 5);
}

#[test]
fn a_resume_plan_names_the_section_bounds_and_prefix() {
    let cps = sample();
    let p = plan_resume(&cps, 0, 5, 2, 6, 12, 12).expect("plan");
    assert_eq!(p.section_start, 0);
    assert_eq!(p.section_old_end, 3);
    assert!(!p.is_last_section);
    assert_eq!(p.resume_index, 1);
    assert_eq!(p.prefix_pages, 1);
    assert!(p.allow_resync);
    let q = plan_resume(&cps, 1, 4, 2, 6, 5, 6).expect("plan");
    assert_eq!(q.section_old_end, 6);
    assert!(q.is_last_section);
    assert!(!q.allow_resync);
    assert!(plan_resume(&cps, 1, 4, 3, 6, 5, 5).is_some());
    // No checkpoint starts section 2, and none of section 1 is at or before
    // a change in a block that precedes them all: both need a full relayout.
    assert!(plan_resume(&cps, 2, 0, 3, 6, 5, 5).is_none());
    let late = vec![cp(0, 0, 0, 10), cp(1, 1, 0, 20), cp(2, 1, 5, 21)];
    assert!(plan_resume(&late[1..], 1, 0, 2, 3, 9, 9).is_some());
    assert!(plan_resume(&late[2..], 1, 0, 2, 3, 9, 9).is_none());
}

#[test]
fn resync_needs_an_equal_state_and_unchanged_blocks() {
    let cps = sample();
    let old = [1, 2, 3, 4, 5, 6, 7, 8, 9, 10];
    let same = old;
    let mut edited = old;
    edited[9] = 0;
    let mut n = 0u64;
    assert_eq!(resync_page(&cps, 0, 9, &12, true, &old, &same, &mut n), Some(2));
    assert_eq!(n, 1);
    assert_eq!(resync_page(&cps, 0, 9, &13, true, &old, &same, &mut n), None);
    assert_eq!(resync_page(&cps, 0, 9, &12, true, &old, &edited, &mut n), None);
    assert_eq!(resync_page(&cps, 0, 9, &12, false, &old, &same, &mut n), None);
}

#[test]
fn the_suffix_and_page_total_follow_the_resync() {
    assert_eq!(suffix_start(Some(7), 5, 6, false), Some(Some(7)));
    assert_eq!(suffix_start(None, 6, 6, false), Some(Some(6)));
    assert_eq!(suffix_start(None, 4, 6, true), Some(None));
    assert_eq!(suffix_start(None, 4, 6, false), None);
    assert_eq!(new_page_total(Some(6), 6, 10), 10);
    assert_eq!(new_page_total(Some(6), 7, 10), 11);
    assert_eq!(new_page_total(None, 4, 10), 4);
}

#[test]
fn assembled_checkpoints_keep_prefix_lift_resumed_and_reuse_the_tail() {
    let cps = sample();
    let resumed = vec![cp(0, 9, 4, 31), cp(1, 9, 7, 32)];
    let out = assemble_checkpoints(&cps, 1, resumed, 0, Some(3));
    let pages: Vec<usize> = out.iter().map(|c| c.page_index).collect();
    assert_eq!(pages, vec![0, 1, 2, 3, 4]);
    assert_eq!(out[1].section_index, 0);
    assert_eq!(out[1].checkpoint, 31);
    assert_eq!(out[3].checkpoint, 20);
    let no_tail = assemble_checkpoints(&cps, 1, vec![cp(0, 0, 4, 31)], 0, None);
    assert_eq!(no_tail.len(), 2);
}

#[test]
fn verbatim_reuse_resets_the_reflow_count() {
    let prev = PaginatedReuse { checkpoints: sample(), has_footnotes: false, reflowed_pages: 4 };
    let r = reuse_verbatim(&prev);
    assert_eq!(r.reflowed_pages, 0);
    assert_eq!(r.checkpoints.len(), 5);
    assert_eq!(r.checkpoints[4].checkpoint, 21);
}

#[test]
fn assembled_pages_are_prefix_middle_and_reused_suffix() {
    let prev = vec!["p0", "p1", "p2", "p3", "p4", "p5"];
    let pages = assemble_pages(&prev, 2, vec!["n2", "n3"], Some(4));
    assert_eq!(pages, vec!["p0", "p1", "n2", "n3", "p4", "p5"]);
    assert_eq!(pages.len(), new_page_total(Some(4), 2 + 2, prev.len()));
    let grown = assemble_pages(&prev, 2, vec!["n2", "n3", "n4"], None);
    assert_eq!(grown, vec!["p0", "p1", "n2", "n3", "n4"]);
    assert_eq!(grown.len(), new_page_total(None, 2 + 3, prev.len()));
}

#[test]
fn a_relayout_begins_only_for_one_single_column_section() {
    let none = [false, false];
    let one = [false, true];
    let same = [false, false];
    let cols = [None, Some(1)];
    assert_eq!(begin_relayout(true, false, 3, 2, &one, &same, &cols), RelayoutStart::Section(1));
    assert_eq!(begin_relayout(true, false, 3, 2, &none, &same, &cols), RelayoutStart::Verbatim);
    assert_eq!(begin_relayout(false, false, 3, 2, &one, &same, &cols), RelayoutStart::Full);
    assert_eq!(begin_relayout(true, false, 3, 3, &one, &same, &cols), RelayoutStart::Full);
    assert_eq!(begin_relayout(true, false, 3, 2, &[true, true], &same, &cols), RelayoutStart::Full);
    assert_eq!(begin_relayout(true, false, 3, 2, &one, &[false, true], &cols), RelayoutStart::Full);
    // A two-column section is column-balanced by the full flow.
    assert_eq!(begin_relayout(true, false, 3, 2, &one, &same, &[None, Some(2)]), RelayoutStart::Full);
}

#[test]
fn a_section_plan_diffs_the_blocks_and_picks_the_resume_point() {
    let cps = sample();
    let old = [1, 2, 3, 4, 5, 6];
    let new = [1, 2, 3, 4, 9, 6];
    let mut n = 0u64;
    let p = plan_section(&old, &new, &cps, 0, 2, 6, &mut n);
    assert_eq!(p.first_changed, 4);
    assert_eq!(p.changed_end, 5);
    assert_eq!(n, 5 + 2);
    match p.decision {
        SectionDecision::Resume(plan) => {
            assert_eq!(plan.resume_index, 1);
            assert_eq!(plan.prefix_pages, 1);
            assert!(plan.allow_resync);
        },
        other => panic!("expected a resume plan, got {other:?}"),
    }
    let v = plan_section(&old, &old, &cps, 0, 2, 6, &mut n);
    assert_eq!(v.decision, SectionDecision::Verbatim);
    let f = plan_section(&old, &new, &cps, 7, 9, 6, &mut n);
    assert_eq!(f.decision, SectionDecision::Full);
}

#[test]
fn finishing_a_relayout_reuses_the_suffix_or_falls_back() {
    let cps = sample();
    let plan = match plan_section(&[1, 2, 3, 4, 5, 6], &[1, 2, 3, 4, 9, 6], &cps, 0, 2, 6, &mut 0)
        .decision
    {
        SectionDecision::Resume(p) => p,
        _ => panic!("expected a resume plan"),
    };
    // Resynced at old page 2 after re-flowing one page: pages 2.. reused.
    assert_eq!(finish_relayout(Some(2), &plan, 1, 6, true), Some((Some(2), 6)));
    // No resync, the section kept its two pages: later sections are reused.
    assert_eq!(finish_relayout(None, &plan, 2, 6, false), Some((Some(3), 6)));
    // No resync and the section grew: a later section exists, so full layout.
    assert_eq!(finish_relayout(None, &plan, 3, 6, false), None);
    // The count changed and a header shows it: full layout.
    assert_eq!(finish_relayout(Some(2), &plan, 2, 6, true), None);
    assert_eq!(finish_relayout(Some(2), &plan, 2, 6, false), Some((Some(2), 7)));
}

#[test]
fn reflowed_page_numbers_are_lifted_by_the_section_start() {
    let mut numbers = vec![0usize, 1, 2];
    lift_page_numbers(&mut numbers, 5);
    assert_eq!(numbers, vec![5, 6, 7]);
    let mut single = vec![3usize, 4];
    lift_page_numbers(&mut single, 0);
    assert_eq!(single, vec![3, 4]);
}
