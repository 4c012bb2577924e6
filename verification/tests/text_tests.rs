//! Tests for the small text classifications and formatters.

use loki_layout::font_substitutes::standard_substitute;
use loki_layout::math_text::{is_close_fence, is_italic_identifier, is_open_fence};
use loki_layout::notes::footnote_mark;
use loki_layout::textbox_color::{Rgb8, hex_to_color};

#[test]
fn hex_colors_parse_with_or_without_a_hash() {
    assert_eq!(hex_to_color("#FF8000"), Some(Rgb8 { r: 255, g: 128, b: 0 }));
    assert_eq!(hex_to_color("0a0B0c"), Some(Rgb8 { r: 10, g: 11, b: 12 }));
}

#[test]
fn malformed_hex_colors_are_none() {
    assert_eq!(hex_to_color("FF800"), None);
    assert_eq!(hex_to_color("##FF8000"), None);
    assert_eq!(hex_to_color("GG8000"), None);
    assert_eq!(hex_to_color("-f0000"), None);
    assert_eq!(hex_to_color(""), None);
    assert_eq!(hex_to_color("+A+B+C"), None);
    assert_eq!(hex_to_color("#ÉÉÉ"), None);
    assert_eq!(hex_to_color("aé0000"), None);
}

#[test]
fn footnote_marks_are_superscripts_then_brackets() {
    assert_eq!(footnote_mark(1), "\u{00B9}");
    assert_eq!(footnote_mark(4), "\u{2074}");
    assert_eq!(footnote_mark(9), "\u{2079}");
    assert_eq!(footnote_mark(10), "[10]");
    assert_eq!(footnote_mark(0), "[0]");
}

#[test]
fn fences_are_single_fence_characters() {
    assert!(is_open_fence("("));
    assert!(is_open_fence("\u{27E8}"));
    assert!(!is_open_fence(")"));
    assert!(!is_open_fence("(("));
    assert!(is_close_fence("]"));
    assert!(is_close_fence("|"));
    assert!(!is_close_fence(""));
}

#[test]
fn only_single_letters_are_italic_identifiers() {
    assert!(is_italic_identifier("x"));
    assert!(is_italic_identifier("\u{3B1}"));
    assert!(!is_italic_identifier("sin"));
    assert!(!is_italic_identifier("1"));
    assert!(!is_italic_identifier(""));
}

#[test]
fn proprietary_families_map_to_metric_twins_case_insensitively() {
    assert_eq!(standard_substitute("ARIAL"), Some("Arimo"));
    assert_eq!(standard_substitute("Calibri Light"), Some("Carlito"));
    assert_eq!(standard_substitute("courier"), Some("Courier Prime"));
    assert_eq!(standard_substitute("Courier New"), Some("Cousine"));
    assert_eq!(standard_substitute("Cambria Math"), Some("Caladea"));
    assert_eq!(standard_substitute("Georgia"), Some("Gelasio"));
    assert_eq!(standard_substitute("Times New Roman"), Some("Tinos"));
    assert_eq!(standard_substitute("Aptos"), None);
}
