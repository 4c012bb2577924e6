//! Note reference marks.
use vstd::prelude::*;
use crate::chars::{push_char, push_chars};
use crate::list_marker::{decimal, decimal_chars};

verus! {

/// The superscript digit for `d` in `1..=9`.
pub open spec fn superscript_digit(d: nat) -> char {
    if d == 1 {
        '\u{00B9}'
    } else if d == 2 {
        '\u{00B2}'
    } else if d == 3 {
        '\u{00B3}'
    } else {
        // U+2074 is superscript four; the rest follow in order.
        ((0x2070 + d) as u32) as char
    }
}

/// The mark for note `n`: a single superscript digit for notes one to nine,
/// otherwise the number in square brackets.
pub open spec fn footnote_mark_text(n: nat) -> Seq<char> {
    if 1 <= n <= 9 {
        seq![superscript_digit(n)]
    } else {
        seq!['['] + decimal(n) + seq![']']
    }
}

/// The reference mark for note number `n`.
pub fn footnote_mark(n: u32) -> (s: String)
    ensures
        s@ == footnote_mark_text(n as nat),
{
    let mut s = String::new();
    let c: char = match n {
        1 => '\u{00B9}',
        2 => '\u{00B2}',
        3 => '\u{00B3}',
        4 => '\u{2074}',
        5 => '\u{2075}',
        6 => '\u{2076}',
        7 => '\u{2077}',
        8 => '\u{2078}',
        9 => '\u{2079}',
        _ => {
            push_char(&mut s, '[');
            let digits = decimal_chars(n);
            push_chars(&mut s, &digits);
            push_char(&mut s, ']');
            assert(s@ =~= footnote_mark_text(n as nat));
            return s;
        },
    };
    push_char(&mut s, c);
    assert(s@ =~= footnote_mark_text(n as nat));
    s
}

/// The Unicode superscript form of a decimal digit character (`⁰¹²³⁴⁵⁶⁷⁸⁹`);
/// any other character is left as it is.
pub open spec fn superscript_form(c: char) -> char {
    if c == '0' {
        '\u{2070}'
    } else if c == '1' {
        '\u{00B9}'
    } else if c == '2' {
        '\u{00B2}'
    } else if c == '3' {
        '\u{00B3}'
    } else if c == '4' {
        '\u{2074}'
    } else if c == '5' {
        '\u{2075}'
    } else if c == '6' {
        '\u{2076}'
    } else if c == '7' {
        '\u{2077}'
    } else if c == '8' {
        '\u{2078}'
    } else if c == '9' {
        '\u{2079}'
    } else {
        c
    }
}

/// The mark of notes one to nine is the note number written in decimal with
/// each digit in its superscript form; every other note number is written in
/// decimal between square brackets.
pub proof fn lemma_footnote_mark_is_superscript_number(n: nat)
    ensures
        1 <= n <= 9 ==> footnote_mark_text(n) == decimal(n).map_values(|c: char| superscript_form(c)),
        !(1 <= n <= 9) ==> footnote_mark_text(n) == seq!['['] + decimal(n) + seq![']'],
{
    if 1 <= n <= 9 {
        let d = decimal(n);
        assert(d == seq![crate::list_marker::digit_char(n)]);
        assert(d.map_values(|c: char| superscript_form(c)) =~= seq![superscript_form(d[0])]);
    }
}

} // verus!
