//! Tests for list-marker and counter formatting.

use loki_layout::{
    BulletChar, ListLevel, ListLevelKind, NumberingScheme, alpha_label, format_counter,
    format_list_marker, format_numbered_label, ordinal_suffix, roman_numeral,
};

fn numbered(format: &str, scheme: NumberingScheme) -> ListLevel {
    ListLevel {
        kind: ListLevelKind::Numbered { format: format.to_string(), scheme, start_value: 1 },
    }
}

#[test]
fn alpha_labels_run_a_to_z_then_double() {
    assert_eq!(alpha_label(1, false), "a");
    assert_eq!(alpha_label(26, false), "z");
    assert_eq!(alpha_label(27, false), "aa");
    assert_eq!(alpha_label(28, true), "AB");
    assert_eq!(alpha_label(702, false), "zz");
    assert_eq!(alpha_label(703, false), "aaa");
    assert_eq!(alpha_label(0, false), "");
}

#[test]
fn roman_numerals_use_subtractive_pairs() {
    assert_eq!(roman_numeral(1994, false), "mcmxciv");
    assert_eq!(roman_numeral(4, true), "IV");
    assert_eq!(roman_numeral(3999, true), "MMMCMXCIX");
    assert_eq!(roman_numeral(0, false), "");
    assert_eq!(roman_numeral(2000, false), "mm");
}

#[test]
fn ordinal_suffixes_treat_the_teens_specially() {
    assert_eq!(ordinal_suffix(1), "st");
    assert_eq!(ordinal_suffix(2), "nd");
    assert_eq!(ordinal_suffix(3), "rd");
    assert_eq!(ordinal_suffix(4), "th");
    assert_eq!(ordinal_suffix(11), "th");
    assert_eq!(ordinal_suffix(12), "th");
    assert_eq!(ordinal_suffix(113), "th");
    assert_eq!(ordinal_suffix(22), "nd");
    assert_eq!(ordinal_suffix(101), "st");
}

#[test]
fn counters_format_by_scheme() {
    assert_eq!(format_counter(42, NumberingScheme::Decimal), "42");
    assert_eq!(format_counter(3, NumberingScheme::LowerAlpha), "c");
    assert_eq!(format_counter(3, NumberingScheme::UpperAlpha), "C");
    assert_eq!(format_counter(9, NumberingScheme::LowerRoman), "ix");
    assert_eq!(format_counter(9, NumberingScheme::UpperRoman), "IX");
    assert_eq!(format_counter(23, NumberingScheme::Ordinal), "23rd");
    assert_eq!(format_counter(5, NumberingScheme::NoNumber), "");
}

#[test]
fn numbered_labels_substitute_each_level_placeholder() {
    let levels = vec![
        numbered("%1.", NumberingScheme::Decimal),
        numbered("%1.%2)", NumberingScheme::LowerAlpha),
    ];
    let counters = [3, 2, 1, 1, 1, 1, 1, 1, 1];
    assert_eq!(format_numbered_label(&levels, "%1.%2)", &counters), "3.b)");
    // %0 is not a placeholder; a level without a definition counts in decimal.
    assert_eq!(format_numbered_label(&levels, "%0-%3%", &counters), "%0-1%");
    assert_eq!(format_list_marker(&levels, 1, &counters), "3.b)");
    assert_eq!(format_list_marker(&levels, 0, &counters), "3.");
}

#[test]
fn bullets_and_missing_levels() {
    let levels = vec![
        ListLevel { kind: ListLevelKind::Bullet { char: BulletChar::Char('◦') } },
        ListLevel { kind: ListLevelKind::Bullet { char: BulletChar::Image } },
        ListLevel { kind: ListLevelKind::NoMarker },
    ];
    let counters = [1; 9];
    assert_eq!(format_list_marker(&levels, 0, &counters), "◦");
    // A picture bullet falls back to the bullet character.
    assert_eq!(format_list_marker(&levels, 1, &counters), "•");
    assert_eq!(format_list_marker(&levels, 2, &counters), "");
    assert_eq!(format_list_marker(&levels, 7, &counters), "");
}

/// Reads a Roman numeral back: a digit followed by a larger one is a
/// subtractive pair.
fn roman_value(s: &str) -> u32 {
    let d = |c: char| match c.to_ascii_lowercase() {
        'm' => 1000,
        'd' => 500,
        'c' => 100,
        'l' => 50,
        'x' => 10,
        'v' => 5,
        'i' => 1,
        _ => 0,
    };
    let cs: Vec<char> = s.chars().collect();
    let mut i = 0;
    let mut total = 0;
    while i < cs.len() {
        if i + 1 < cs.len() && d(cs[i]) < d(cs[i + 1]) {
            total += d(cs[i + 1]) - d(cs[i]);
            i += 2;
        } else {
            total += d(cs[i]);
            i += 1;
        }
    }
    total
}

#[test]
fn roman_numerals_read_back_as_their_numbers() {
    for n in 0..5000 {
        assert_eq!(roman_value(&roman_numeral(n, false)), n, "{n}");
        assert_eq!(roman_value(&roman_numeral(n, true)), n, "{n}");
    }
}
