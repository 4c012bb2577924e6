//! Tests for even/odd section-break blank-page insertion.

use loki_layout::paginate_blanks::{SectionStart, needs_blank_before};

#[test]
fn first_section_never_gets_a_filler() {
    for start in [
        SectionStart::EvenPage,
        SectionStart::OddPage,
        SectionStart::NewPage,
    ] {
        assert!(!needs_blank_before(start, 0), "{start:?}");
    }
}

#[test]
fn even_page_needs_filler_only_when_next_is_odd() {
    assert!(!needs_blank_before(SectionStart::EvenPage, 1));
    assert!(needs_blank_before(SectionStart::EvenPage, 2));
}

#[test]
fn odd_page_needs_filler_only_when_next_is_even() {
    assert!(!needs_blank_before(SectionStart::OddPage, 2));
    assert!(needs_blank_before(SectionStart::OddPage, 1));
}

#[test]
fn new_page_and_continuous_never_need_a_filler() {
    assert!(!needs_blank_before(SectionStart::NewPage, 3));
    assert!(!needs_blank_before(SectionStart::Continuous, 3));
}

#[test]
fn a_filler_lands_the_section_on_the_requested_parity() {
    for count in 1..20usize {
        for (start, even) in [(SectionStart::EvenPage, true), (SectionStart::OddPage, false)] {
            let first = if needs_blank_before(start, count) { count + 2 } else { count + 1 };
            assert_eq!(first % 2 == 0, even, "{start:?} after {count} pages");
        }
    }
}
