//! Text classifications the math typesetter makes on MathML token content.
use vstd::prelude::*;
use crate::chars::chars_of;

verus! {

/// Unicode `Alphabetic`, as `char::is_alphabetic` reports it.
pub uninterp spec fn alphabetic(c: char) -> bool;

/// `char::is_alphabetic`: whether `c` has the Unicode `Alphabetic` property.
/// The contract names the answer and claims only that it depends on `c`
/// alone; which characters are alphabetic is the Unicode tables' business.
#[verifier::external_body]
fn char_is_alphabetic(c: char) -> (r: bool)
    ensures
        r == alphabetic(c),
{
    c.is_alphabetic()
}

/// Whether `c` is an opening fence: a paren, bracket, brace or bar, or one of
/// the double-bar, floor, ceiling and angle openers.
pub open spec fn is_open_fence_char(c: char) -> bool {
    ||| c == '('
    ||| c == '['
    ||| c == '{'
    ||| c == '|'
    ||| c == '\u{2016}'
    ||| c == '\u{230A}'
    ||| c == '\u{2308}'
    ||| c == '\u{27E8}'
    ||| c == '\u{2329}'
}

/// Whether `c` is a closing fence.
pub open spec fn is_close_fence_char(c: char) -> bool {
    ||| c == ')'
    ||| c == ']'
    ||| c == '}'
    ||| c == '|'
    ||| c == '\u{2016}'
    ||| c == '\u{230B}'
    ||| c == '\u{2309}'
    ||| c == '\u{27E9}'
    ||| c == '\u{232A}'
}

/// MathML convention: a single-letter identifier is set italic, a
/// multi-letter one (a function name such as `sin`) upright.
pub fn is_italic_identifier(text: &str) -> (r: bool)
    ensures
        r == (text@.len() == 1 && alphabetic(text@[0])),
{
    let chars = chars_of(text);
    if chars.len() != 1 {
        return false;
    }
    char_is_alphabetic(chars[0])
}

/// Whether `s` is a single opening fence character, which stretches to its
/// content.
pub fn is_open_fence(s: &str) -> (r: bool)
    ensures
        r == (s@.len() == 1 && is_open_fence_char(s@[0])),
{
    let chars = chars_of(s);
    if chars.len() != 1 {
        return false;
    }
    let c = chars[0];
    c == '(' || c == '[' || c == '{' || c == '|' || c == '\u{2016}' || c == '\u{230A}' || c
        == '\u{2308}' || c == '\u{27E8}' || c == '\u{2329}'
}

/// Whether `s` is a single closing fence character.
pub fn is_close_fence(s: &str) -> (r: bool)
    ensures
        r == (s@.len() == 1 && is_close_fence_char(s@[0])),
{
    let chars = chars_of(s);
    if chars.len() != 1 {
        return false;
    }
    let c = chars[0];
    c == ')' || c == ']' || c == '}' || c == '|' || c == '\u{2016}' || c == '\u{230B}' || c
        == '\u{2309}' || c == '\u{27E9}' || c == '\u{232A}'
}

/// The opener a closing fence pairs with: `)`→`(`, `]`→`[`, `}`→`{`, the
/// bars with themselves, and the floor, ceiling and angle closers with their
/// openers. Anything else maps to itself.
pub open spec fn fence_opener_of(c: char) -> char {
    if c == ')' {
        '('
    } else if c == ']' {
        '['
    } else if c == '}' {
        '{'
    } else if c == '\u{230B}' {
        '\u{230A}'
    } else if c == '\u{2309}' {
        '\u{2308}'
    } else if c == '\u{27E9}' {
        '\u{27E8}'
    } else if c == '\u{232A}' {
        '\u{2329}'
    } else {
        c
    }
}

/// Fences come in pairs: the opener of every closing fence is an opening
/// fence, and the opening fences are exactly the openers of closing fences.
/// So a bracket, brace, paren, bar, floor, ceiling or angle stretches on
/// whichever side of its pair it stands.
pub proof fn lemma_fences_pair(c: char)
    ensures
        is_close_fence_char(c) ==> is_open_fence_char(fence_opener_of(c)),
        is_open_fence_char(c) <==> exists|d: char|
            is_close_fence_char(d) && #[trigger] fence_opener_of(d) == c,
{
    if c == '(' {
        assert(is_close_fence_char(')') && fence_opener_of(')') == c);
    } else if c == '[' {
        assert(is_close_fence_char(']') && fence_opener_of(']') == c);
    } else if c == '{' {
        assert(is_close_fence_char('}') && fence_opener_of('}') == c);
    } else if c == '|' || c == '\u{2016}' {
        assert(is_close_fence_char(c) && fence_opener_of(c) == c);
    } else if c == '\u{230A}' {
        assert(is_close_fence_char('\u{230B}') && fence_opener_of('\u{230B}') == c);
    } else if c == '\u{2308}' {
        assert(is_close_fence_char('\u{2309}') && fence_opener_of('\u{2309}') == c);
    } else if c == '\u{27E8}' {
        assert(is_close_fence_char('\u{27E9}') && fence_opener_of('\u{27E9}') == c);
    } else if c == '\u{2329}' {
        assert(is_close_fence_char('\u{232A}') && fence_opener_of('\u{232A}') == c);
    }
    if exists|d: char| is_close_fence_char(d) && #[trigger] fence_opener_of(d) == c {
        let d = choose|d: char| is_close_fence_char(d) && #[trigger] fence_opener_of(d) == c;
        assert(is_open_fence_char(fence_opener_of(d)));
    }
}

} // verus!
