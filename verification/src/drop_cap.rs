//! Which leading bytes of a paragraph a dropped initial enlarges.
use vstd::prelude::*;
use vstd::string::StringSliceAdditionalSpecFns;
use vstd::utf8::{
    encode_scalar, encode_utf8, encode_utf8_first_scalar, encode_utf8_valid_utf8, is_char_boundary,
    length_of_first_scalar, pop_first_scalar,
};
use crate::chars::chars_of;

verus! {

/// How much of a paragraph's start a dropped initial covers.
#[derive(Debug, Clone, Copy, PartialEq, Eq)]
pub enum DropCapLength {
    /// The first `n` characters (at least one).
    Chars(u32),
    /// The first word, up to the first whitespace.
    Word,
}

/// Unicode `White_Space`, the property behind `char::is_whitespace` and
/// `str::trim_start`.
pub open spec fn is_white_space(c: char) -> bool {
    let u = c as u32;
    ||| 0x09 <= u <= 0x0D
    ||| u == 0x20
    ||| u == 0x85
    ||| u == 0xA0
    ||| u == 0x1680
    ||| 0x2000 <= u <= 0x200A
    ||| u == 0x2028
    ||| u == 0x2029
    ||| u == 0x202F
    ||| u == 0x205F
    ||| u == 0x3000
}

/// Whether `c` is Unicode whitespace.
pub fn is_whitespace_char(c: char) -> (r: bool)
    ensures
        r == is_white_space(c),
{
    let u = c as u32;
    (0x09 <= u && u <= 0x0D) || u == 0x20 || u == 0x85 || u == 0xA0 || u == 0x1680 || (0x2000
        <= u && u <= 0x200A) || u == 0x2028 || u == 0x2029 || u == 0x202F || u == 0x205F || u
        == 0x3000
}

/// Bytes of the UTF-8 encoding of `c`.
pub fn utf8_width(c: char) -> (n: usize)
    ensures
        n == encode_scalar(c as u32).len(),
        1 <= n <= 4,
{
    let u = c as u32;
    if u <= 0x7F {
        1
    } else if u <= 0x7FF {
        2
    } else if u <= 0xFFFF {
        3
    } else {
        4
    }
}

/// Byte offset of character `j` of `chars` in its UTF-8 encoding.
pub open spec fn byte_offset(chars: Seq<char>, j: int) -> nat {
    encode_utf8(chars.take(j)).len()
}

/// Number of leading whitespace characters of `chars`.
pub open spec fn leading_ws(chars: Seq<char>) -> nat
    decreases chars.len(),
{
    if chars.len() > 0 && is_white_space(chars[0]) {
        1 + leading_ws(chars.drop_first())
    } else {
        0
    }
}

/// Characters before the first whitespace of `chars` (all of them if none).
pub open spec fn word_len(chars: Seq<char>) -> nat
    decreases chars.len(),
{
    if chars.len() > 0 && !is_white_space(chars[0]) {
        1 + word_len(chars.drop_first())
    } else {
        0
    }
}

/// Byte length of the initial to enlarge: leading whitespace is skipped
/// (and counted), then `Word` covers up to the first whitespace and
/// `Chars(n)` the next `max(n, 1)` characters. Zero when only whitespace is
/// left.
pub open spec fn cap_len_spec(chars: Seq<char>, length: DropCapLength) -> nat {
    let lead = leading_ws(chars);
    let rest = chars.skip(lead as int);
    if rest.len() == 0 {
        0
    } else {
        let count = match length {
            DropCapLength::Word => word_len(rest),
            DropCapLength::Chars(n) => {
                let n = if n == 0 {
                    1nat
                } else {
                    n as nat
                };
                if n <= rest.len() {
                    n
                } else {
                    rest.len()
                }
            },
        };
        byte_offset(chars, (lead + count) as int)
    }
}

/// UTF-8 encoding distributes over concatenation.
pub proof fn lemma_encode_utf8_concat(a: Seq<char>, b: Seq<char>)
    ensures
        encode_utf8(a + b) == encode_utf8(a) + encode_utf8(b),
    decreases a.len(),
{
    if a.len() == 0 {
        assert(a + b =~= b);
        assert(encode_utf8(a) + encode_utf8(b) =~= encode_utf8(b));
    } else {
        lemma_encode_utf8_concat(a.drop_first(), b);
        assert((a + b).drop_first() =~= a.drop_first() + b);
        assert((a + b)[0] == a[0]);
        assert(encode_utf8(a + b) =~= encode_scalar(a[0] as u32) + (encode_utf8(a.drop_first())
            + encode_utf8(b)));
    }
}

/// The next character's encoding extends the byte offset by its width, and
/// every byte offset is within the whole encoding.
pub proof fn lemma_byte_offset_step(chars: Seq<char>, j: int)
    requires
        0 <= j < chars.len(),
    ensures
        byte_offset(chars, j + 1) == byte_offset(chars, j) + encode_scalar(chars[j] as u32).len(),
        byte_offset(chars, j + 1) <= encode_utf8(chars).len(),
{
    lemma_encode_utf8_concat(chars.take(j), seq![chars[j]]);
    assert(chars.take(j + 1) =~= chars.take(j) + seq![chars[j]]);
    assert(seq![chars[j]].drop_first() =~= Seq::<char>::empty());
    assert(encode_utf8(seq![chars[j]]) =~= encode_scalar(chars[j] as u32)) by {
        reveal_with_fuel(encode_utf8, 2);
    }
    lemma_encode_utf8_concat(chars.take(j + 1), chars.skip(j + 1));
    assert(chars.take(j + 1) + chars.skip(j + 1) =~= chars);
}

/// Every character's byte offset is a character boundary of the encoding.
pub proof fn lemma_byte_offset_is_boundary(chars: Seq<char>, j: int)
    requires
        0 <= j <= chars.len(),
    ensures
        is_char_boundary(encode_utf8(chars), byte_offset(chars, j) as int),
    decreases j,
{
    let bytes = encode_utf8(chars);
    encode_utf8_valid_utf8(chars);
    if j == 0 {
        assert(chars.take(0) =~= Seq::<char>::empty());
    } else {
        let rest = chars.drop_first();
        encode_utf8_first_scalar(chars);
        assert(pop_first_scalar(bytes) =~= encode_utf8(rest));
        lemma_byte_offset_is_boundary(rest, j - 1);
        lemma_encode_utf8_concat(seq![chars[0]], rest.take(j - 1));
        assert(chars.take(j) =~= seq![chars[0]] + rest.take(j - 1));
        assert(seq![chars[0]].drop_first() =~= Seq::<char>::empty());
        assert(encode_utf8(seq![chars[0]]) =~= encode_scalar(chars[0] as u32)) by {
            reveal_with_fuel(encode_utf8, 2);
        }
        assert(byte_offset(chars, j) == length_of_first_scalar(bytes) + byte_offset(rest, j - 1));
        assert(bytes.len() >= byte_offset(chars, j)) by {
            lemma_encode_utf8_concat(chars.take(j), chars.skip(j));
            assert(chars.take(j) + chars.skip(j) =~= chars);
        }
    }
}

/// Byte length of the leading initial of `text` that a drop cap of `length`
/// enlarges; zero when the paragraph has no usable initial.
pub fn cap_byte_len(text: &str, length: DropCapLength) -> (n: usize)
    ensures
        n == cap_len_spec(text@, length),
        is_char_boundary(text.spec_bytes(), n as int),
{
    let chars = chars_of(text);
    let ghost cs = chars@;
    let total: usize = text.as_bytes().len();
    proof {
        assert(text.spec_bytes() == encode_utf8(cs));
        assert(cs.take(0) =~= Seq::<char>::empty());
        assert(cs.skip(0) =~= cs);
    }
    // Skip leading whitespace, counting its bytes.
    let mut i: usize = 0;
    let mut bytes: usize = 0;
    while i < chars.len() && is_whitespace_char(chars[i])
        invariant
            cs == chars@,
            i <= cs.len(),
            total == encode_utf8(cs).len(),
            bytes == byte_offset(cs, i as int),
            leading_ws(cs) == i + leading_ws(cs.skip(i as int)),
        decreases cs.len() - i,
    {
        proof {
            lemma_byte_offset_step(cs, i as int);
            assert(cs.skip(i as int).drop_first() =~= cs.skip(i + 1));
        }
        bytes = bytes + utf8_width(chars[i]);
        i = i + 1;
    }
    proof {
        assert(cs.skip(0) =~= cs);
        assert(leading_ws(cs.skip(i as int)) == 0);
    }
    let lead = i;
    if lead == chars.len() {
        proof {
            lemma_byte_offset_is_boundary(cs, 0);
            assert(cs.take(0) =~= Seq::<char>::empty());
        }
        return 0;
    }
    let limit: usize = match length {
        DropCapLength::Word => chars.len() - lead,
        DropCapLength::Chars(n) => {
            let n: usize = if n == 0 {
                1
            } else {
                n as usize
            };
            if n <= chars.len() - lead {
                n
            } else {
                chars.len() - lead
            }
        },
    };
    let stop_at_space = match length {
        DropCapLength::Word => true,
        DropCapLength::Chars(_) => false,
    };
    let ghost rest = cs.skip(lead as int);
    proof {
        assert(rest.skip(0) =~= rest);
        assert(cs.take(lead + 0) =~= cs.take(lead as int));
    }
    let n_chars: usize = chars.len();
    let mut k: usize = 0;
    while k < limit && !(stop_at_space && is_whitespace_char(chars[lead + k]))
        invariant
            cs == chars@,
            n_chars == cs.len(),
            lead < cs.len(),
            rest == cs.skip(lead as int),
            limit <= cs.len() - lead,
            k <= limit,
            total == encode_utf8(cs).len(),
            bytes == byte_offset(cs, lead + k),
            stop_at_space ==> limit == cs.len() - lead,
            stop_at_space ==> word_len(rest) == k + word_len(rest.skip(k as int)),
        decreases limit - k,
    {
        proof {
            lemma_byte_offset_step(cs, lead + k);
            assert(rest.skip(k as int).drop_first() =~= rest.skip(k + 1));
        }
        bytes = bytes + utf8_width(chars[lead + k]);
        k = k + 1;
    }
    proof {
        lemma_byte_offset_is_boundary(cs, lead + k);
        assert(rest.skip(0) =~= rest);
        if stop_at_space {
            if k < limit {
                assert(rest.skip(k as int)[0] == cs[lead + k]);
            } else {
                assert(rest.skip(k as int).len() == 0);
            }
        }
    }
    bytes
}

} // verus!
