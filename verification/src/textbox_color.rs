//! Parsing a text box's `RRGGBB` fill or line colour.
use vstd::prelude::*;
use vstd::string::StringSliceAdditionalSpecFns;

verus! {

/// An opaque colour as three 8-bit channels.
#[derive(Debug, Clone, Copy, PartialEq, Eq)]
pub struct Rgb8 {
    pub r: u8,
    pub g: u8,
    pub b: u8,
}

/// The value of hexadecimal digit `b`, if it is one.
pub open spec fn hex_digit(b: u8) -> Option<u8> {
    if 0x30 <= b <= 0x39 {
        Some((b - 0x30) as u8)
    } else if 0x61 <= b <= 0x66 {
        Some((b - 0x61 + 10) as u8)
    } else if 0x41 <= b <= 0x46 {
        Some((b - 0x41 + 10) as u8)
    } else {
        None
    }
}

/// The value of the two hex digits `b0 b1`, if both are hex digits.
pub open spec fn hex_pair(b0: u8, b1: u8) -> Option<u8> {
    match (hex_digit(b0), hex_digit(b1)) {
        (Some(h), Some(l)) => Some((h * 16 + l) as u8),
        _ => None,
    }
}

/// The bytes after one leading `#`, if there is one.
pub open spec fn without_hash(bytes: Seq<u8>) -> Seq<u8> {
    if bytes.len() > 0 && bytes[0] == 0x23 {
        bytes.drop_first()
    } else {
        bytes
    }
}

/// The colour `RRGGBB` (with an optional leading `#`) denotes: exactly six
/// hex digits, each pair one channel.
pub open spec fn hex_color(bytes: Seq<u8>) -> Option<Rgb8> {
    let s = without_hash(bytes);
    if s.len() != 6 {
        None
    } else {
        match (hex_pair(s[0], s[1]), hex_pair(s[2], s[3]), hex_pair(s[4], s[5])) {
            (Some(r), Some(g), Some(b)) => Some(Rgb8 { r, g, b }),
            _ => None,
        }
    }
}

fn hex_digit_value(b: u8) -> (r: Option<u8>)
    ensures
        r == hex_digit(b),
{
    if 0x30 <= b && b <= 0x39 {
        Some(b - 0x30)
    } else if 0x61 <= b && b <= 0x66 {
        Some(b - 0x61 + 10)
    } else if 0x41 <= b && b <= 0x46 {
        Some(b - 0x41 + 10)
    } else {
        None
    }
}

fn parse_hex_pair(b0: u8, b1: u8) -> (r: Option<u8>)
    ensures
        r == hex_pair(b0, b1),
{
    match (hex_digit_value(b0), hex_digit_value(b1)) {
        (Some(h), Some(l)) => Some(h * 16 + l),
        _ => None,
    }
}

/// Parses an `RRGGBB` string, with an optional leading `#`, into a colour.
/// Anything but exactly six hex digits after the `#` gives `None`.
pub fn hex_to_color(s: &str) -> (r: Option<Rgb8>)
    ensures
        r == hex_color(s.spec_bytes()),
{
    let all = s.as_bytes();
    let start: usize = if all.len() > 0 && all[0] == 0x23 {
        1
    } else {
        0
    };
    let ghost stripped = without_hash(all@);
    proof {
        assert(stripped =~= all@.subrange(start as int, all@.len() as int));
    }
    if all.len() - start != 6 {
        return None;
    }
    let r = match parse_hex_pair(all[start], all[start + 1]) {
        Some(v) => v,
        None => {
            return None;
        },
    };
    let g = match parse_hex_pair(all[start + 2], all[start + 3]) {
        Some(v) => v,
        None => {
            return None;
        },
    };
    let b = match parse_hex_pair(all[start + 4], all[start + 5]) {
        Some(v) => v,
        None => {
            return None;
        },
    };
    Some(Rgb8 { r, g, b })
}

/// The sixteen hexadecimal digit characters in order of value, as bytes:
/// `0123456789abcdef`, or `0123456789ABCDEF` in upper case.
pub open spec fn hex_digit_chars(upper: bool) -> Seq<u8> {
    if upper {
        seq![
            0x30u8, 0x31u8, 0x32u8, 0x33u8, 0x34u8, 0x35u8, 0x36u8, 0x37u8, 0x38u8, 0x39u8,
            0x41u8, 0x42u8, 0x43u8, 0x44u8, 0x45u8, 0x46u8,
        ]
    } else {
        seq![
            0x30u8, 0x31u8, 0x32u8, 0x33u8, 0x34u8, 0x35u8, 0x36u8, 0x37u8, 0x38u8, 0x39u8,
            0x61u8, 0x62u8, 0x63u8, 0x64u8, 0x65u8, 0x66u8,
        ]
    }
}

/// ASCII lower case of one byte.
pub open spec fn ascii_lower(b: u8) -> u8 {
    if 0x41 <= b <= 0x5a {
        (b + 32) as u8
    } else {
        b
    }
}

/// Each of the sixteen digit characters, in either case, is a hex digit
/// worth its position in `0123456789abcdef`.
pub proof fn lemma_hex_digit_values(v: u8, upper: bool)
    requires
        v < 16,
    ensures
        hex_digit(hex_digit_chars(upper)[v as int]) == Some(v),
{
}

/// Nothing but those sixteen characters, in either case, is a hex digit.
pub proof fn lemma_hex_digits_are_digit_chars(b: u8)
    ensures
        hex_digit(b) matches Some(w) ==> w < 16 && (b == hex_digit_chars(false)[w as int]
            || b == hex_digit_chars(true)[w as int]),
{
}

/// Case does not matter: a byte and its ASCII lower case are the same digit,
/// or both no digit.
pub proof fn lemma_hex_digit_ignores_case(b: u8)
    ensures
        hex_digit(ascii_lower(b)) == hex_digit(b),
{
}

/// Two hex digits of a byte's value, high nibble first.
pub open spec fn hex_byte(x: u8, upper: bool) -> Seq<u8> {
    seq![hex_digit_chars(upper)[(x / 16) as int], hex_digit_chars(upper)[(x % 16) as int]]
}

/// Writing a colour's channels as six hex digits, in either case and with or
/// without a leading `#`, and reading them back gives the colour.
pub proof fn lemma_hex_color_round_trip(c: Rgb8, upper: bool, hash: bool)
    ensures
        hex_color(
            (if hash {
                seq![0x23u8]
            } else {
                Seq::<u8>::empty()
            }) + hex_byte(c.r, upper) + hex_byte(c.g, upper) + hex_byte(c.b, upper),
        ) == Some(c),
{
    let body = hex_byte(c.r, upper) + hex_byte(c.g, upper) + hex_byte(c.b, upper);
    let s = (if hash {
        seq![0x23u8]
    } else {
        Seq::<u8>::empty()
    }) + body;
    assert(without_hash(s) =~= body);
    lemma_hex_digit_values((c.r / 16) as u8, upper);
    lemma_hex_digit_values((c.r % 16) as u8, upper);
    lemma_hex_digit_values((c.g / 16) as u8, upper);
    lemma_hex_digit_values((c.g % 16) as u8, upper);
    lemma_hex_digit_values((c.b / 16) as u8, upper);
    lemma_hex_digit_values((c.b % 16) as u8, upper);
    assert(hex_pair(body[0], body[1]) == Some(c.r));
    assert(hex_pair(body[2], body[3]) == Some(c.g));
    assert(hex_pair(body[4], body[5]) == Some(c.b));
}

/// Whether byte `b` is the digit character of value `v`, in either case.
pub open spec fn spells_digit(b: u8, v: int) -> bool {
    0 <= v < 16 && (b == hex_digit_chars(false)[v] || b == hex_digit_chars(true)[v])
}

/// Two digit characters read as channel value `x` are its high and low
/// digits.
proof fn lemma_pair_spells(b0: u8, b1: u8, x: u8)
    requires
        hex_pair(b0, b1) == Some(x),
    ensures
        spells_digit(b0, (x / 16) as int),
        spells_digit(b1, (x % 16) as int),
{
    lemma_hex_digits_are_digit_chars(b0);
    lemma_hex_digits_are_digit_chars(b1);
    let h = hex_digit(b0)->0;
    let l = hex_digit(b1)->0;
    assert(x / 16 == h && x % 16 == l) by (nonlinear_arith)
        requires
            h < 16,
            l < 16,
            x == h * 16 + l,
    ;
}

/// Only a spelling of the colour is read as it: when `s` gives colour `c`,
/// what follows an optional leading `#` is six digit characters, in either
/// case: the high and low digits of `c.r`, `c.g` and `c.b` in turn.
pub proof fn lemma_hex_color_spells_channels(s: Seq<u8>, c: Rgb8)
    requires
        hex_color(s) == Some(c),
    ensures
        without_hash(s).len() == 6,
        spells_digit(without_hash(s)[0], (c.r / 16) as int),
        spells_digit(without_hash(s)[1], (c.r % 16) as int),
        spells_digit(without_hash(s)[2], (c.g / 16) as int),
        spells_digit(without_hash(s)[3], (c.g % 16) as int),
        spells_digit(without_hash(s)[4], (c.b / 16) as int),
        spells_digit(without_hash(s)[5], (c.b % 16) as int),
{
    let t = without_hash(s);
    lemma_pair_spells(t[0], t[1], c.r);
    lemma_pair_spells(t[2], t[3], c.g);
    lemma_pair_spells(t[4], t[5], c.b);
}

} // verus!
