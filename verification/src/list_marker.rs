//! List-marker synthesis: bullet and numbering label formatting.
//!
//! Self-contained formatting helpers with no layout-state dependencies:
//! bullet characters, the numbering schemes, and multi-level `%N`-style format
//! strings (OOXML `w:lvlText`, ODF `text:num-format`).

use vstd::prelude::*;
use crate::chars::{chars_of, push_char, push_chars};

verus! {

/// How a numbered list level (or a page-number field) writes its counter.
#[derive(Debug, Clone, Copy, PartialEq, Eq)]
pub enum NumberingScheme {
    /// `1, 2, 3, …`
    Decimal,
    /// `a, b, …, z, aa, ab, …`
    LowerAlpha,
    /// `A, B, …, Z, AA, AB, …`
    UpperAlpha,
    /// `i, ii, iii, iv, …`
    LowerRoman,
    /// `I, II, III, IV, …`
    UpperRoman,
    /// `1st, 2nd, 3rd, 4th, …`
    Ordinal,
    /// No visible number.
    NoNumber,
}

/// The glyph of a bullet level.
#[derive(Debug, Clone, PartialEq, Eq)]
pub enum BulletChar {
    /// A text bullet character.
    Char(char),
    /// A picture bullet, placed out of band by the flow engine.
    Image,
}

/// What a list level draws before its paragraphs.
#[derive(Debug, Clone, PartialEq, Eq)]
pub enum ListLevelKind {
    /// A bullet.
    Bullet {
        /// The bullet glyph.
        char: BulletChar,
    },
    /// A number, formatted by `format` with `%N` placeholders.
    Numbered {
        /// The level text, e.g. `"%1."` or `"%1.%2"`.
        format: String,
        /// How this level's own counter is written.
        scheme: NumberingScheme,
        /// The first counter value of this level.
        start_value: u32,
    },
    /// No marker.
    NoMarker,
}

/// One level of a list style.
#[derive(Debug, Clone, PartialEq, Eq)]
pub struct ListLevel {
    /// What the level draws.
    pub kind: ListLevelKind,
}

// ── Specification ───────────────────────────────────────────────────────────

/// The character of decimal digit `d` (`0 <= d < 10`).
pub open spec fn digit_char(d: nat) -> char {
    ((d + 48) as u32) as char
}

/// The decimal representation of `n`, without leading zeros.
pub open spec fn decimal(n: nat) -> Seq<char>
    decreases n,
{
    if n < 10 {
        seq![digit_char(n)]
    } else {
        decimal(n / 10).push(digit_char(n % 10))
    }
}

/// Letter `k` (`0 <= k < 26`) of the Latin alphabet, lower or upper case.
pub open spec fn letter(k: nat, upper: bool) -> char {
    if upper {
        ((k + 65) as u32) as char
    } else {
        ((k + 97) as u32) as char
    }
}

/// The bijective base-26 label of `n`: 1→a, 2→b, …, 26→z, 27→aa, 28→ab, …
/// (empty for 0).
pub open spec fn alpha(n: nat, upper: bool) -> Seq<char>
    decreases n,
{
    if n == 0 {
        Seq::empty()
    } else {
        alpha(((n - 1) as nat / 26) as nat, upper).push(letter(((n - 1) as nat % 26) as nat, upper))
    }
}

/// The value of a bijective base-26 label (the inverse of [`alpha`]).
pub open spec fn alpha_value(s: Seq<char>, upper: bool) -> int
    decreases s.len(),
{
    if s.len() == 0 {
        0
    } else {
        alpha_value(s.drop_last(), upper) * 26 + (s.last() as int - (if upper {
            65int
        } else {
            97int
        })) + 1
    }
}

/// Alphabetic labels are a numbering: reading a label back as a bijective
/// base-26 number gives the counter it was made from, so distinct counters
/// never share a label.
pub proof fn lemma_alpha_label_round_trip(n: nat, upper: bool)
    ensures
        alpha_value(alpha(n, upper), upper) == n,
    decreases n,
{
    if n > 0 {
        let q = ((n - 1) as nat / 26) as nat;
        let r = ((n - 1) as nat % 26) as nat;
        lemma_alpha_label_round_trip(q, upper);
        let s = alpha(n, upper);
        assert(s.drop_last() =~= alpha(q, upper));
        assert(s.last() == letter(r, upper));
        assert(letter(r, upper) as int == r + (if upper {
            65int
        } else {
            97int
        }));
    }
}

/// Distinct counters get distinct alphabetic labels.
pub proof fn lemma_alpha_label_injective(m: nat, n: nat, upper: bool)
    requires
        alpha(m, upper) == alpha(n, upper),
    ensures
        m == n,
{
    lemma_alpha_label_round_trip(m, upper);
    lemma_alpha_label_round_trip(n, upper);
}

/// The thirteen (value, numeral) steps of a Roman numeral, largest first.
pub open spec fn roman_step_value(k: int) -> nat {
    if k == 0 {
        1000
    } else if k == 1 {
        900
    } else if k == 2 {
        500
    } else if k == 3 {
        400
    } else if k == 4 {
        100
    } else if k == 5 {
        90
    } else if k == 6 {
        50
    } else if k == 7 {
        40
    } else if k == 8 {
        10
    } else if k == 9 {
        9
    } else if k == 10 {
        5
    } else if k == 11 {
        4
    } else {
        1
    }
}

/// The numeral written for step `k` of [`roman_step_value`], lower case.
pub open spec fn roman_step_symbol(k: int) -> Seq<char> {
    if k == 0 {
        seq!['m']
    } else if k == 1 {
        seq!['c', 'm']
    } else if k == 2 {
        seq!['d']
    } else if k == 3 {
        seq!['c', 'd']
    } else if k == 4 {
        seq!['c']
    } else if k == 5 {
        seq!['x', 'c']
    } else if k == 6 {
        seq!['l']
    } else if k == 7 {
        seq!['x', 'l']
    } else if k == 8 {
        seq!['x']
    } else if k == 9 {
        seq!['i', 'x']
    } else if k == 10 {
        seq!['v']
    } else if k == 11 {
        seq!['i', 'v']
    } else {
        seq!['i']
    }
}

/// The Roman numeral of `n` written greedily from step `k` on: each step's
/// numeral is repeated while its value still fits.
pub open spec fn roman_from(n: nat, k: int) -> Seq<char>
    decreases 13 - k, n,
{
    if k < 0 || k >= 13 {
        Seq::empty()
    } else if n >= roman_step_value(k) {
        roman_step_symbol(k) + roman_from((n - roman_step_value(k)) as nat, k)
    } else {
        roman_from(n, k + 1)
    }
}

/// ASCII upper case of a lower-case Roman numeral.
pub open spec fn upper_ascii(s: Seq<char>) -> Seq<char> {
    Seq::new(
        s.len(),
        |i: int|
            if 'a' <= s[i] <= 'z' {
                ((s[i] as u32 - 32) as u32) as char
            } else {
                s[i]
            },
    )
}

/// The Roman numeral of `n` (empty for 0), lower or upper case.
pub open spec fn roman(n: nat, upper: bool) -> Seq<char> {
    if upper {
        upper_ascii(roman_from(n, 0))
    } else {
        roman_from(n, 0)
    }
}

/// The English ordinal suffix of `n`: `th` for 11–13 (mod 100), else `st`,
/// `nd`, `rd` for a last digit of 1, 2, 3, else `th`.
pub open spec fn ordinal(n: nat) -> Seq<char> {
    if 11 <= n % 100 <= 13 {
        seq!['t', 'h']
    } else if n % 10 == 1 {
        seq!['s', 't']
    } else if n % 10 == 2 {
        seq!['n', 'd']
    } else if n % 10 == 3 {
        seq!['r', 'd']
    } else {
        seq!['t', 'h']
    }
}

/// `n` written in `scheme`.
pub open spec fn counter_text(n: nat, scheme: NumberingScheme) -> Seq<char> {
    match scheme {
        NumberingScheme::Decimal => decimal(n),
        NumberingScheme::LowerAlpha => alpha(n, false),
        NumberingScheme::UpperAlpha => alpha(n, true),
        NumberingScheme::LowerRoman => roman(n, false),
        NumberingScheme::UpperRoman => roman(n, true),
        NumberingScheme::Ordinal => decimal(n) + ordinal(n),
        NumberingScheme::NoNumber => Seq::empty(),
    }
}

/// The scheme of level `i` when it is a numbered level, else decimal.
pub open spec fn level_scheme(levels: Seq<ListLevel>, i: int) -> NumberingScheme {
    if 0 <= i < levels.len() {
        match levels[i].kind {
            ListLevelKind::Numbered { scheme, .. } => scheme,
            _ => NumberingScheme::Decimal,
        }
    } else {
        NumberingScheme::Decimal
    }
}

/// Whether `c` is a placeholder digit `1`–`9`.
pub open spec fn is_level_digit(c: char) -> bool {
    '1' <= c <= '9'
}

/// A `w:lvlText`-style format string with every `%N` (N in 1–9) replaced by
/// the counter of level N−1 written in that level's scheme.
pub open spec fn numbered_label(fmt: Seq<char>, levels: Seq<ListLevel>, counters: Seq<u32>) -> Seq<
    char,
>
    decreases fmt.len(),
{
    if fmt.len() == 0 {
        Seq::empty()
    } else if fmt.len() >= 2 && fmt[0] == '%' && is_level_digit(fmt[1]) {
        let i = fmt[1] as int - 49;
        counter_text(counters[i] as nat, level_scheme(levels, i)) + numbered_label(
            fmt.subrange(2, fmt.len() as int),
            levels,
            counters,
        )
    } else {
        seq![fmt[0]] + numbered_label(fmt.drop_first(), levels, counters)
    }
}

/// The marker text of `level` in `levels`: the bullet character (`•` for a
/// picture bullet), the expanded number format, or nothing (no such level,
/// or no marker).
pub open spec fn marker_text(levels: Seq<ListLevel>, level: int, counters: Seq<u32>) -> Seq<
    char,
> {
    if 0 <= level < levels.len() {
        match levels[level].kind {
            ListLevelKind::Bullet { char: BulletChar::Char(c) } => seq![c],
            ListLevelKind::Bullet { char: BulletChar::Image } => seq!['\u{2022}'],
            ListLevelKind::Numbered { format, .. } => numbered_label(format@, levels, counters),
            ListLevelKind::NoMarker => Seq::empty(),
        }
    } else {
        Seq::empty()
    }
}

// ── Formatting ──────────────────────────────────────────────────────────────

/// The decimal digits of `n`.
pub(crate) fn decimal_chars(n: u32) -> (v: Vec<char>)
    ensures
        v@ == decimal(n as nat),
    decreases n,
{
    if n < 10 {
        let c = char_from_digit(n);
        let mut v: Vec<char> = Vec::new();
        v.push(c);
        assert(v@ =~= decimal(n as nat));
        v
    } else {
        let mut v = decimal_chars(n / 10);
        v.push(char_from_digit(n % 10));
        v
    }
}

/// The character of decimal digit `d`.
fn char_from_digit(d: u32) -> (c: char)
    requires
        d < 10,
    ensures
        c == digit_char(d as nat),
{
    if d == 0 {
        '0'
    } else if d == 1 {
        '1'
    } else if d == 2 {
        '2'
    } else if d == 3 {
        '3'
    } else if d == 4 {
        '4'
    } else if d == 5 {
        '5'
    } else if d == 6 {
        '6'
    } else if d == 7 {
        '7'
    } else if d == 8 {
        '8'
    } else {
        '9'
    }
}

/// Convert `n` to an alphabetic label: 1→a, 2→b, …, 26→z, 27→aa, 28→ab, …
fn alpha_chars(n: u32, upper: bool) -> (v: Vec<char>)
    ensures
        v@ == alpha(n as nat, upper),
    decreases n,
{
    if n == 0 {
        Vec::new()
    } else {
        let m = n - 1;
        let mut v = alpha_chars(m / 26, upper);
        v.push(letter_char(m % 26, upper));
        v
    }
}

/// Letter `k` of the alphabet.
fn letter_char(k: u32, upper: bool) -> (c: char)
    requires
        k < 26,
    ensures
        c == letter(k as nat, upper),
{
    let base: u32 = if upper {
        65
    } else {
        97
    };
    let code = base + k;
    proof {
        assert(code < 0xD800);
    }
    char_of_ascii(code)
}

/// The character with ASCII code `code`.
fn char_of_ascii(code: u32) -> (c: char)
    requires
        code < 128,
    ensures
        c == (code as char),
{
    let b = code as u8;
    b as char
}

/// Convert `n` to an alphabetic label: 1→a, 2→b, …, 26→z, 27→aa, 28→ab, …
pub fn alpha_label(n: u32, upper: bool) -> (s: String)
    ensures
        s@ == alpha(n as nat, upper),
{
    let v = alpha_chars(n, upper);
    let mut s = String::new();
    push_chars(&mut s, &v);
    s
}

/// The value of Roman numeral step `k`.
fn roman_value_at(k: usize) -> (v: u32)
    requires
        k < 13,
    ensures
        v == roman_step_value(k as int),
{
    if k == 0 {
        1000
    } else if k == 1 {
        900
    } else if k == 2 {
        500
    } else if k == 3 {
        400
    } else if k == 4 {
        100
    } else if k == 5 {
        90
    } else if k == 6 {
        50
    } else if k == 7 {
        40
    } else if k == 8 {
        10
    } else if k == 9 {
        9
    } else if k == 10 {
        5
    } else if k == 11 {
        4
    } else {
        1
    }
}

/// Appends the numeral of Roman step `k`.
fn push_roman_symbol(out: &mut Vec<char>, k: usize)
    requires
        k < 13,
    ensures
        final(out)@ == old(out)@ + roman_step_symbol(k as int),
{
    let ghost before = out@;
    if k == 0 {
        out.push('m');
    } else if k == 1 {
        out.push('c');
        out.push('m');
    } else if k == 2 {
        out.push('d');
    } else if k == 3 {
        out.push('c');
        out.push('d');
    } else if k == 4 {
        out.push('c');
    } else if k == 5 {
        out.push('x');
        out.push('c');
    } else if k == 6 {
        out.push('l');
    } else if k == 7 {
        out.push('x');
        out.push('l');
    } else if k == 8 {
        out.push('x');
    } else if k == 9 {
        out.push('i');
        out.push('x');
    } else if k == 10 {
        out.push('v');
    } else if k == 11 {
        out.push('i');
        out.push('v');
    } else {
        out.push('i');
    }
    assert(out@ =~= before + roman_step_symbol(k as int));
}

/// The lower-case Roman numeral of `n`.
fn roman_chars(n: u32) -> (v: Vec<char>)
    ensures
        v@ == roman_from(n as nat, 0),
{
    let mut out: Vec<char> = Vec::new();
    let mut m = n;
    let mut k: usize = 0;
    while k < 13
        invariant
            k <= 13,
            out@ + roman_from(m as nat, k as int) == roman_from(n as nat, 0),
        decreases 13 - k,
    {
        let val = roman_value_at(k);
        while m >= val
            invariant
                k < 13,
                val == roman_step_value(k as int),
                out@ + roman_from(m as nat, k as int) == roman_from(n as nat, 0),
            decreases m,
        {
            let ghost before = out@;
            push_roman_symbol(&mut out, k);
            m = m - val;
            assert(out@ + roman_from(m as nat, k as int) =~= before + (roman_step_symbol(k as int)
                + roman_from(m as nat, k as int)));
        }
        k = k + 1;
    }
    assert(out@ + Seq::<char>::empty() =~= out@);
    out
}

/// Convert `n` to a Roman numeral string.
pub fn roman_numeral(n: u32, upper: bool) -> (s: String)
    ensures
        s@ == roman(n as nat, upper),
{
    let lower = roman_chars(n);
    let mut out: Vec<char> = Vec::new();
    if upper {
        let mut i: usize = 0;
        while i < lower.len()
            invariant
                i <= lower@.len(),
                out@.len() == i,
                forall|j: int| 0 <= j < i ==> #[trigger] out@[j] == upper_ascii(lower@)[j],
            decreases lower@.len() - i,
        {
            let c = lower[i];
            let u = if 'a' <= c && c <= 'z' {
                char_of_ascii(c as u32 - 32)
            } else {
                c
            };
            out.push(u);
            i = i + 1;
        }
        assert(out@ =~= upper_ascii(lower@));
    } else {
        out = lower;
    }
    let mut s = String::new();
    push_chars(&mut s, &out);
    s
}

/// Return the English ordinal suffix for `n` (1st, 2nd, 3rd, …, 11th, …).
pub fn ordinal_suffix(n: u32) -> (s: &'static str)
    ensures
        s@ == ordinal(n as nat),
{
    proof {
        reveal_strlit("th");
        reveal_strlit("st");
        reveal_strlit("nd");
        reveal_strlit("rd");
    }
    let h = n % 100;
    if 11 <= h && h <= 13 {
        "th"
    } else {
        let d = n % 10;
        if d == 1 {
            "st"
        } else if d == 2 {
            "nd"
        } else if d == 3 {
            "rd"
        } else {
            "th"
        }
    }
}

/// Format a single counter value according to its numbering scheme.
///
/// Shared by list-marker rendering and page-number fields (OOXML
/// `w:pgNumType @w:fmt`).
pub fn format_counter(n: u32, scheme: NumberingScheme) -> (s: String)
    ensures
        s@ == counter_text(n as nat, scheme),
{
    match scheme {
        NumberingScheme::Decimal => {
            let mut s = String::new();
            push_chars(&mut s, &decimal_chars(n));
            s
        },
        NumberingScheme::LowerAlpha => alpha_label(n, false),
        NumberingScheme::UpperAlpha => alpha_label(n, true),
        NumberingScheme::LowerRoman => roman_numeral(n, false),
        NumberingScheme::UpperRoman => roman_numeral(n, true),
        NumberingScheme::Ordinal => {
            let mut s = String::new();
            push_chars(&mut s, &decimal_chars(n));
            let suffix = chars_of(ordinal_suffix(n));
            push_chars(&mut s, &suffix);
            s
        },
        NumberingScheme::NoNumber => String::new(),
    }
}

/// The scheme of level `i` when it is a numbered level, else decimal.
fn scheme_of_level(levels: &[ListLevel], i: usize) -> (r: NumberingScheme)
    ensures
        r == level_scheme(levels@, i as int),
{
    if i < levels.len() {
        match &levels[i].kind {
            ListLevelKind::Numbered { scheme, .. } => *scheme,
            _ => NumberingScheme::Decimal,
        }
    } else {
        NumberingScheme::Decimal
    }
}

/// Expand a `w:lvlText`-style format string, replacing `%N` tokens with
/// the counter at 0-based level N-1 formatted by that level's scheme.
pub fn format_numbered_label(list_levels: &[ListLevel], format: &str, counters: &[u32; 9]) -> (s:
    String)
    ensures
        s@ == numbered_label(format@, list_levels@, counters@),
{
    let chars = chars_of(format);
    let n = chars.len();
    let mut result = String::new();
    let mut i: usize = 0;
    let ghost levels = list_levels@;
    let ghost cs = counters@;
    assert(chars@.subrange(0, n as int) =~= chars@);
    while i < n
        invariant
            n == chars@.len(),
            i <= n,
            cs == counters@,
            levels == list_levels@,
            cs.len() == 9,
            result@ + numbered_label(chars@.subrange(i as int, n as int), levels, cs)
                == numbered_label(format@, levels, cs),
        decreases n - i,
    {
        let ghost rest = chars@.subrange(i as int, n as int);
        let ghost before = result@;
        let c = chars[i];
        if c == '%' && i + 1 < n && '1' <= chars[i + 1] && chars[i + 1] <= '9' {
            let d = chars[i + 1];
            let level_idx = (d as u32 - 49) as usize;
            let counter = counters[level_idx];
            let scheme = scheme_of_level(list_levels, level_idx);
            let text = format_counter(counter, scheme);
            let text_chars = chars_of(text.as_str());
            push_chars(&mut result, &text_chars);
            assert(rest.subrange(2, rest.len() as int) =~= chars@.subrange(i + 2, n as int));
            assert(rest[0] == '%' && rest[1] == d);
            assert(level_idx as int == d as int - 49);
            assert(counter == cs[level_idx as int]);
            assert(numbered_label(rest, levels, cs) == counter_text(counter as nat, scheme)
                + numbered_label(rest.subrange(2, rest.len() as int), levels, cs));
            i = i + 2;
            assert(result@ + numbered_label(chars@.subrange(i as int, n as int), levels, cs)
                =~= before + numbered_label(rest, levels, cs));
        } else {
            push_char(&mut result, c);
            assert(rest.drop_first() =~= chars@.subrange(i + 1, n as int));
            i = i + 1;
            assert(result@ + numbered_label(chars@.subrange(i as int, n as int), levels, cs)
                =~= before + numbered_label(rest, levels, cs));
        }
    }
    assert(result@ + Seq::<char>::empty() =~= result@);
    result
}

/// Produce the display string for a list marker at `level` in `list_levels`.
///
/// Handles bullet characters, every [`NumberingScheme`], and multi-level
/// `%N`-style format strings. Picture bullets fall back to `•`.
///
/// Returns an empty string for a level with no marker or past the last level.
pub fn format_list_marker(list_levels: &[ListLevel], level: u8, counters: &[u32; 9]) -> (s:
    String)
    ensures
        s@ == marker_text(list_levels@, level as int, counters@),
{
    let idx = level as usize;
    if idx >= list_levels.len() {
        return String::new();
    }
    match &list_levels[idx].kind {
        ListLevelKind::Bullet { char: BulletChar::Char(c) } => {
            let mut s = String::new();
            push_char(&mut s, *c);
            s
        },
        ListLevelKind::Bullet { char: BulletChar::Image } => {
            let mut s = String::new();
            push_char(&mut s, '\u{2022}');
            s
        },
        ListLevelKind::Numbered { format, .. } => format_numbered_label(
            list_levels,
            format.as_str(),
            counters,
        ),
        ListLevelKind::NoMarker => String::new(),
    }
}

} // verus!
