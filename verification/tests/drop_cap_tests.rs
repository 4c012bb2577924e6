//! Tests for the drop-cap initial length.

use loki_layout::drop_cap::{DropCapLength, cap_byte_len};

#[test]
fn cap_byte_len_single_char() {
    assert_eq!(cap_byte_len("Hello world", DropCapLength::Chars(1)), 1);
}

#[test]
fn cap_byte_len_multi_char() {
    assert_eq!(cap_byte_len("Hello world", DropCapLength::Chars(3)), 3);
}

#[test]
fn cap_byte_len_word_stops_at_space() {
    assert_eq!(cap_byte_len("Hello world", DropCapLength::Word), 5);
}

#[test]
fn cap_byte_len_word_whole_when_no_space() {
    assert_eq!(cap_byte_len("Hello", DropCapLength::Word), 5);
}

#[test]
fn cap_byte_len_skips_leading_whitespace() {
    assert_eq!(cap_byte_len("  Hello", DropCapLength::Chars(1)), 3);
}

#[test]
fn cap_byte_len_multibyte_initial() {
    assert_eq!(cap_byte_len("École", DropCapLength::Chars(1)), 2);
}

#[test]
fn cap_byte_len_empty_is_zero() {
    assert_eq!(cap_byte_len("", DropCapLength::Chars(1)), 0);
    assert_eq!(cap_byte_len("   ", DropCapLength::Word), 0);
}

#[test]
fn cap_byte_len_chars_zero_treated_as_one() {
    assert_eq!(cap_byte_len("Hello", DropCapLength::Chars(0)), 1);
}

#[test]
fn cap_byte_len_counts_unicode_whitespace_as_whitespace() {
    // An ideographic space (3 bytes) leads, and a no-break space ends the word.
    assert_eq!(cap_byte_len("\u{3000}Word\u{a0}next", DropCapLength::Word), 7);
    assert_eq!(cap_byte_len("\u{3000}\t x", DropCapLength::Chars(1)), 6);
}

#[test]
fn cap_byte_len_chars_past_the_end_takes_the_rest() {
    assert_eq!(cap_byte_len(" ab", DropCapLength::Chars(9)), 3);
    assert_eq!(cap_byte_len("日本語", DropCapLength::Chars(2)), 6);
}
