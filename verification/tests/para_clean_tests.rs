//! Tests for text cleaning and its byte-index maps.

use loki_layout::ByteIndexMap;
use loki_layout::para_clean::{clean_text, remap_range};
use loki_layout::para_lines::line_end_offset;

#[test]
fn plain_text_is_kept_with_identity_maps() {
    let (clean, o2c, c2o) = clean_text("héllo\nworld");
    assert_eq!(clean, "héllo\nworld");
    let n = "héllo\nworld".len();
    assert_eq!(o2c, (0..=n).collect::<Vec<_>>());
    assert_eq!(c2o, (0..=n).collect::<Vec<_>>());
    assert!(matches!(ByteIndexMap::from_indices(&o2c), ByteIndexMap::Identity { .. }));
}

#[test]
fn controls_and_the_bom_are_dropped_but_tabs_kept() {
    let text = "a\tb\u{feff}c\u{7}";
    let (clean, o2c, c2o) = clean_text(text);
    assert_eq!(clean, "a\tbc");
    // a=0, \t=1, b=2, BOM=3..6, c=6, BEL=7, end=8
    assert_eq!(o2c, vec![0, 1, 2, 3, 3, 3, 3, 4, 4]);
    assert_eq!(c2o, vec![0, 1, 2, 6, 8]);
}

#[test]
fn the_maps_round_trip_on_cleaned_offsets() {
    let text = "x\u{1}é\u{feff}\ny";
    let (clean, o2c, c2o) = clean_text(text);
    for q in 0..=clean.len() {
        assert_eq!(o2c[c2o[q]], q, "cleaned offset {q}");
    }
    for w in o2c.windows(2) {
        assert!(w[0] <= w[1]);
    }
}

#[test]
fn span_ranges_are_remapped_and_clamped() {
    let (clean, o2c, _) = clean_text("a\u{1}b");
    assert_eq!(remap_range(&o2c, clean.len(), 0, 3), (0, 2));
    assert_eq!(remap_range(&o2c, clean.len(), 1, 2), (1, 1));
    assert_eq!(remap_range(&o2c, clean.len(), 2, 99), (1, 2));
}

#[test]
fn the_line_end_skips_a_trailing_break() {
    let text = "one\r\ntwo";
    let (_, o2c, c2o) = clean_text(text);
    let o2c = ByteIndexMap::from_indices(&o2c);
    let c2o = ByteIndexMap::from_indices(&c2o);
    let lines = [(0usize, 4usize), (4, 7)];
    // \r is a control character: the cleaned text is "one\ntwo".
    assert_eq!(line_end_offset(&o2c, &c2o, Some(&lines), 1, text), Some(3));
    assert_eq!(line_end_offset(&o2c, &c2o, Some(&lines), 6, text), Some(8));
    assert_eq!(line_end_offset(&o2c, &c2o, Some(&lines), 100, text), Some(8));
    assert_eq!(line_end_offset(&o2c, &c2o, None, 1, text), None);
    assert_eq!(line_end_offset(&o2c, &c2o, Some(&[]), 1, text), None);
}
