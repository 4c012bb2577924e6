//! Tests for span lookups and spell-checker selection.

use loki_layout::font_families::sort_family_names;
use loki_layout::options::{CheckerChoice, checker_choice};
use loki_layout::span_lookup::{span_at_offset, span_covering_range};

#[test]
fn the_first_span_holding_an_offset_wins() {
    let spans = [(0usize, 5usize), (5, 9), (3, 12)];
    assert_eq!(span_at_offset(&spans, 4), Some(0));
    assert_eq!(span_at_offset(&spans, 5), Some(1));
    assert_eq!(span_at_offset(&spans, 10), Some(2));
    assert_eq!(span_at_offset(&spans, 12), None);
}

#[test]
fn a_run_takes_the_first_span_covering_all_of_it() {
    let spans = [(0usize, 5usize), (5, 9), (3, 12)];
    assert_eq!(span_covering_range(&spans, 1, 5), Some(0));
    assert_eq!(span_covering_range(&spans, 4, 7), Some(2));
    assert_eq!(span_covering_range(&spans, 0, 13), None);
}

#[test]
fn untagged_text_uses_the_default_checker_choice() {
    assert_eq!(checker_choice(false, &[true], true), CheckerChoice::Default);
}

#[test]
fn a_tag_resolves_through_its_fallback_chain() {
    assert_eq!(checker_choice(true, &[false, true], true), CheckerChoice::Dictionary(1));
    assert_eq!(checker_choice(true, &[true, true], true), CheckerChoice::Dictionary(0));
}

#[test]
fn an_unmatched_tag_is_skipped_only_with_dictionaries_registered() {
    assert_eq!(checker_choice(true, &[false, false], true), CheckerChoice::Unchecked);
    assert_eq!(checker_choice(true, &[false], false), CheckerChoice::Default);
}

fn strings(names: &[&str]) -> Vec<String> {
    names.iter().map(|s| s.to_string()).collect()
}

#[test]
fn family_names_sort_without_regard_to_case_and_drop_adjacent_repeats() {
    let sorted = sort_family_names(&strings(&["b", "a", "b", "B"]));
    assert_eq!(sorted, strings(&["a", "b", "B"]));
    let sorted = sort_family_names(&strings(&["Zapf", "arial", "Courier", "Arial", "arial"]));
    assert_eq!(sorted, strings(&["arial", "Arial", "arial", "Courier", "Zapf"]));
    assert!(sort_family_names(&Vec::new()).is_empty());
}

#[test]
fn equal_family_names_collapse_to_one() {
    let sorted = sort_family_names(&strings(&["Noto Sans", "DejaVu", "Noto Sans", "dejavu"]));
    assert_eq!(sorted, strings(&["DejaVu", "dejavu", "Noto Sans"]));
}
