//! Tests for the reading-measure constants and clamping.

use loki_layout::measure::{
    DEFAULT_MEASURE_CHARS, MAX_MEASURE_CHARS, MIN_MEASURE_CHARS, PROSE_SAMPLE, clamp_measure_chars,
};

#[test]
fn the_default_measure_is_inside_the_stated_band() {
    assert!(
        (72..=80).contains(&DEFAULT_MEASURE_CHARS),
        "the default {DEFAULT_MEASURE_CHARS} is outside the 72-80 band"
    );
    assert!(MIN_MEASURE_CHARS < DEFAULT_MEASURE_CHARS);
    assert!(DEFAULT_MEASURE_CHARS < MAX_MEASURE_CHARS);
}

#[test]
fn an_out_of_range_setting_is_clamped_at_both_ends() {
    assert_eq!(clamp_measure_chars(0), MIN_MEASURE_CHARS);
    assert_eq!(clamp_measure_chars(1), MIN_MEASURE_CHARS);
    assert_eq!(clamp_measure_chars(u32::MAX), MAX_MEASURE_CHARS);
    assert_eq!(clamp_measure_chars(DEFAULT_MEASURE_CHARS), DEFAULT_MEASURE_CHARS);
    assert_eq!(clamp_measure_chars(MIN_MEASURE_CHARS), MIN_MEASURE_CHARS);
    assert_eq!(clamp_measure_chars(MAX_MEASURE_CHARS), MAX_MEASURE_CHARS);
}

#[test]
fn the_prose_sample_is_spaced_lowercase_prose() {
    assert!(PROSE_SAMPLE.contains(' '));
    assert!(!PROSE_SAMPLE.chars().any(|c| c.is_uppercase()));
}
