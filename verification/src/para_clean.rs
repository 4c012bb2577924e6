//! Text cleaning for the shaper, and the byte-index maps it produces.
//!
//! Control characters other than tab and newline, and the byte-order mark,
//! are stripped, and two maps translate byte offsets between the original text and
//! the cleaned one, so editor hit-testing works in either coordinate space.
use vstd::prelude::*;
use vstd::string::StringSliceAdditionalSpecFns;
use vstd::utf8::{encode_scalar, encode_utf8};
use crate::drop_cap::{byte_offset, lemma_byte_offset_step, lemma_encode_utf8_concat, utf8_width};
use crate::chars::{chars_of, push_char};

verus! {

/// Unicode general category `Cc`, the property behind `char::is_control`.
pub open spec fn is_control_char(c: char) -> bool {
    let u = c as u32;
    u <= 0x1F || (0x7F <= u && u <= 0x9F)
}

/// Whether cleaning keeps `c`: a tab or a newline, or anything that is
/// neither a control character nor the byte-order mark.
pub open spec fn keeps(c: char) -> bool {
    c == '\t' || c == '\n' || (!is_control_char(c) && c != '\u{feff}')
}

/// The characters of `chars` that cleaning keeps, in order.
pub open spec fn cleaned(chars: Seq<char>) -> Seq<char> {
    chars.filter(|c: char| keeps(c))
}

/// UTF-8 width of `c`.
pub open spec fn width(c: char) -> nat {
    encode_scalar(c as u32).len()
}

/// Byte offset, in the cleaned text, of what stands at character `j` of the
/// original.
pub open spec fn clean_offset(chars: Seq<char>, j: int) -> nat {
    encode_utf8(cleaned(chars.take(j))).len()
}

/// The original-to-cleaned map is right on the bytes of character `j`: each
/// byte of a kept character maps to its counterpart, each byte of a dropped
/// one to where the cleaned text resumes.
pub open spec fn orig_map_ok(chars: Seq<char>, map: Seq<usize>, j: int) -> bool {
    let from = byte_offset(chars, j) as int;
    let w = width(chars[j]) as int;
    let to = clean_offset(chars, j) as int;
    if keeps(chars[j]) {
        map.subrange(from, from + w) == Seq::new(w as nat, |i: int| (to + i) as usize)
    } else {
        map.subrange(from, from + w) == Seq::new(w as nat, |i: int| to as usize)
    }
}

/// The cleaned-to-original map is right on the bytes of kept character `j`.
pub open spec fn clean_map_ok(chars: Seq<char>, map: Seq<usize>, j: int) -> bool {
    let from = byte_offset(chars, j) as int;
    let w = width(chars[j]) as int;
    let to = clean_offset(chars, j) as int;
    keeps(chars[j]) ==> map.subrange(to, to + w) == Seq::new(w as nat, |i: int| (from + i) as usize)
}

/// One more character of the original extends the cleaned text by that
/// character when it is kept, and by nothing otherwise.
pub proof fn lemma_cleaned_step(chars: Seq<char>, j: int)
    requires
        0 <= j < chars.len(),
    ensures
        cleaned(chars.take(j + 1)) == if keeps(chars[j]) {
            cleaned(chars.take(j)).push(chars[j])
        } else {
            cleaned(chars.take(j))
        },
        clean_offset(chars, j + 1) == clean_offset(chars, j) + if keeps(chars[j]) {
            width(chars[j])
        } else {
            0
        },
{
    reveal(Seq::filter);
    assert(chars.take(j + 1).drop_last() =~= chars.take(j));
    assert(chars.take(j + 1).last() == chars[j]);
    if keeps(chars[j]) {
        let before = cleaned(chars.take(j));
        lemma_encode_utf8_concat(before, seq![chars[j]]);
        assert(before.push(chars[j]) =~= before + seq![chars[j]]);
        assert(seq![chars[j]].drop_first() =~= Seq::<char>::empty());
        assert(encode_utf8(seq![chars[j]]) =~= encode_scalar(chars[j] as u32)) by {
            reveal_with_fuel(encode_utf8, 2);
        }
    }
}

/// `o2c` and `c2o` are the byte maps of cleaning `chars`: one entry per
/// original (resp. cleaned) byte plus one for the end, each right on every
/// character, and the ends mapped to each other.
pub open spec fn byte_maps(chars: Seq<char>, o2c: Seq<usize>, c2o: Seq<usize>) -> bool {
    let total = encode_utf8(chars).len();
    let clean_total = clean_offset(chars, chars.len() as int);
    &&& o2c.len() == total + 1
    &&& forall|j: int| 0 <= j < chars.len() ==> #[trigger] orig_map_ok(chars, o2c, j)
    &&& o2c[total as int] == clean_total
    &&& c2o.len() == clean_total + 1
    &&& forall|j: int| 0 <= j < chars.len() ==> #[trigger] clean_map_ok(chars, c2o, j)
    &&& c2o[clean_total as int] == total
}

/// Strips the characters the shaper must not see and maps byte offsets both
/// ways: returns the cleaned text, the original-to-cleaned map (one entry per
/// original byte, plus one for the end) and the cleaned-to-original map (one
/// entry per cleaned byte, plus one for the end).
pub fn clean_text(text: &str) -> (r: (String, Vec<usize>, Vec<usize>))
    requires
        text.spec_bytes().len() < usize::MAX,
    ensures
        r.0@ == cleaned(text@),
        forall|i: int| 0 <= i < r.0@.len() ==> keeps(#[trigger] r.0@[i]),
        byte_maps(text@, r.1@, r.2@),
{
    let chars = chars_of(text);
    let ghost cs = chars@;
    let total: usize = text.as_bytes().len();
    let mut out = String::new();
    let mut orig_to_clean: Vec<usize> = Vec::new();
    let mut clean_to_orig: Vec<usize> = Vec::new();
    let mut orig_idx: usize = 0;
    let mut clean_idx: usize = 0;
    let n_chars: usize = chars.len();
    proof {
        assert(cs.take(0) =~= Seq::<char>::empty());
        reveal(Seq::filter);
        assert(cleaned(cs.take(0)) =~= Seq::<char>::empty());
    }
    let mut j: usize = 0;
    while j < n_chars
        invariant
            cs == chars@,
            cs == text@,
            n_chars == cs.len(),
            j <= n_chars,
            total == encode_utf8(cs).len(),
            total < usize::MAX,
            orig_idx == byte_offset(cs, j as int),
            clean_idx == clean_offset(cs, j as int),
            clean_idx <= orig_idx,
            orig_idx <= total,
            out@ == cleaned(cs.take(j as int)),
            orig_to_clean@.len() == orig_idx,
            clean_to_orig@.len() == clean_idx,
            forall|jj: int| 0 <= jj < j ==> #[trigger] orig_map_ok(cs, orig_to_clean@, jj),
            forall|jj: int| 0 <= jj < j ==> #[trigger] clean_map_ok(cs, clean_to_orig@, jj),
        decreases n_chars - j,
    {
        let c = chars[j];
        let c_len = utf8_width(c);
        let keep = c == '\t' || c == '\n' || (!is_control(c) && c != '\u{feff}');
        proof {
            lemma_byte_offset_step(cs, j as int);
            lemma_cleaned_step(cs, j as int);
        }
        let ghost o2c_before = orig_to_clean@;
        let ghost c2o_before = clean_to_orig@;
        let mut i: usize = 0;
        while i < c_len
            invariant
                c_len == width(c),
                c_len <= 4,
                orig_idx + c_len <= total,
                clean_idx <= orig_idx,
                i <= c_len,
                orig_to_clean@.len() == orig_idx + i,
                orig_to_clean@.subrange(0, orig_idx as int) == o2c_before,
                forall|m: int|
                    0 <= m < i ==> #[trigger] orig_to_clean@[orig_idx + m] == if keep {
                        (clean_idx + m) as usize
                    } else {
                        clean_idx
                    },
                keep ==> clean_to_orig@.len() == clean_idx + i,
                !keep ==> clean_to_orig@ == c2o_before,
                clean_to_orig@.subrange(0, clean_idx as int) == c2o_before,
                keep ==> forall|m: int|
                    0 <= m < i ==> #[trigger] clean_to_orig@[clean_idx + m] == (orig_idx + m) as usize,
            decreases c_len - i,
        {
            if keep {
                orig_to_clean.push(clean_idx + i);
                clean_to_orig.push(orig_idx + i);
            } else {
                orig_to_clean.push(clean_idx);
            }
            i = i + 1;
        }
        proof {
            let from = orig_idx as int;
            let to = clean_idx as int;
            let w = c_len as int;
            assert forall|jj: int| 0 <= jj < j + 1 implies #[trigger] orig_map_ok(
                cs,
                orig_to_clean@,
                jj,
            ) by {
                if jj < j {
                    assert(orig_map_ok(cs, o2c_before, jj));
                    lemma_offsets_within(cs, jj, j as int);
                    assert(orig_to_clean@.subrange(
                        byte_offset(cs, jj) as int,
                        (byte_offset(cs, jj) + width(cs[jj])) as int,
                    ) =~= o2c_before.subrange(
                        byte_offset(cs, jj) as int,
                        (byte_offset(cs, jj) + width(cs[jj])) as int,
                    ));
                } else {
                    if keep {
                        assert forall|m: int| 0 <= m < w implies #[trigger] orig_to_clean@.subrange(
                            from,
                            from + w,
                        )[m] == (to + m) as usize by {
                            assert(orig_to_clean@[orig_idx + m] == (clean_idx + m) as usize);
                        }
                        assert(orig_to_clean@.subrange(from, from + w) =~= Seq::new(
                            w as nat,
                            |m: int| (to + m) as usize,
                        ));
                    } else {
                        assert forall|m: int| 0 <= m < w implies #[trigger] orig_to_clean@.subrange(
                            from,
                            from + w,
                        )[m] == to as usize by {
                            assert(orig_to_clean@[orig_idx + m] == clean_idx);
                        }
                        assert(orig_to_clean@.subrange(from, from + w) =~= Seq::new(
                            w as nat,
                            |m: int| to as usize,
                        ));
                    }
                }
            }
            assert forall|jj: int| 0 <= jj < j + 1 implies #[trigger] clean_map_ok(
                cs,
                clean_to_orig@,
                jj,
            ) by {
                if jj < j {
                    assert(clean_map_ok(cs, c2o_before, jj));
                    if keeps(cs[jj]) {
                        lemma_offsets_within(cs, jj, j as int);
                        assert(clean_to_orig@.subrange(
                            clean_offset(cs, jj) as int,
                            (clean_offset(cs, jj) + width(cs[jj])) as int,
                        ) =~= c2o_before.subrange(
                            clean_offset(cs, jj) as int,
                            (clean_offset(cs, jj) + width(cs[jj])) as int,
                        ));
                    }
                } else if keep {
                    assert forall|m: int| 0 <= m < w implies #[trigger] clean_to_orig@.subrange(
                        to,
                        to + w,
                    )[m] == (from + m) as usize by {
                        assert(clean_to_orig@[clean_idx + m] == (orig_idx + m) as usize);
                    }
                    assert(clean_to_orig@.subrange(to, to + w) =~= Seq::new(
                        w as nat,
                        |m: int| (from + m) as usize,
                    ));
                }
            }
        }
        if keep {
            push_char(&mut out, c);
            clean_idx = clean_idx + c_len;
        }
        orig_idx = orig_idx + c_len;
        j = j + 1;
    }
    proof {
        assert(cs.take(cs.len() as int) =~= cs);
        assert(text.spec_bytes() == encode_utf8(cs));
    }
    let ghost o2c_body = orig_to_clean@;
    let ghost c2o_body = clean_to_orig@;
    orig_to_clean.push(clean_idx);
    clean_to_orig.push(orig_idx);
    proof {
        assert(orig_to_clean@.drop_last() =~= o2c_body);
        assert(clean_to_orig@.drop_last() =~= c2o_body);
        assert forall|jj: int| 0 <= jj < cs.len() implies #[trigger] orig_map_ok(
            cs,
            orig_to_clean@,
            jj,
        ) by {
            assert(orig_map_ok(cs, orig_to_clean@.drop_last(), jj));
            lemma_offsets_within(cs, jj, cs.len() as int);
            assert(orig_to_clean@.drop_last().subrange(
                byte_offset(cs, jj) as int,
                (byte_offset(cs, jj) + width(cs[jj])) as int,
            ) =~= orig_to_clean@.subrange(
                byte_offset(cs, jj) as int,
                (byte_offset(cs, jj) + width(cs[jj])) as int,
            ));
        }
        assert forall|jj: int| 0 <= jj < cs.len() implies #[trigger] clean_map_ok(
            cs,
            clean_to_orig@,
            jj,
        ) by {
            assert(clean_map_ok(cs, clean_to_orig@.drop_last(), jj));
            if keeps(cs[jj]) {
                lemma_offsets_within(cs, jj, cs.len() as int);
                assert(clean_to_orig@.drop_last().subrange(
                    clean_offset(cs, jj) as int,
                    (clean_offset(cs, jj) + width(cs[jj])) as int,
                ) =~= clean_to_orig@.subrange(
                    clean_offset(cs, jj) as int,
                    (clean_offset(cs, jj) + width(cs[jj])) as int,
                ));
            }
        }
    }
    proof {
        assert(encode_utf8(cs).len() == total);
        assert(cs.take(cs.len() as int) =~= cs);
        cs.filter_lemma(|c: char| keeps(c));
    }
    (out, orig_to_clean, clean_to_orig)
}

/// Character `jj`'s bytes lie before character `j`'s offset, in both texts.
pub proof fn lemma_offsets_within(chars: Seq<char>, jj: int, j: int)
    requires
        0 <= jj < j <= chars.len(),
    ensures
        byte_offset(chars, jj) + width(chars[jj]) <= byte_offset(chars, j),
        clean_offset(chars, jj) + (if keeps(chars[jj]) {
            width(chars[jj])
        } else {
            0
        }) <= clean_offset(chars, j),
    decreases j - jj,
{
    lemma_byte_offset_step(chars, jj);
    lemma_cleaned_step(chars, jj);
    if jj + 1 < j {
        lemma_offsets_monotone(chars, jj + 1, j);
    }
}

/// Both offsets grow with the character index.
pub proof fn lemma_offsets_monotone(chars: Seq<char>, a: int, b: int)
    requires
        0 <= a <= b <= chars.len(),
    ensures
        byte_offset(chars, a) <= byte_offset(chars, b),
        clean_offset(chars, a) <= clean_offset(chars, b),
    decreases b - a,
{
    if a < b {
        lemma_byte_offset_step(chars, a);
        lemma_cleaned_step(chars, a);
        lemma_offsets_monotone(chars, a + 1, b);
    }
}

/// Whether `c` is a control character (`char::is_control`).
pub fn is_control(c: char) -> (r: bool)
    ensures
        r == is_control_char(c),
{
    let u = c as u32;
    u <= 0x1F || (0x7F <= u && u <= 0x9F)
}

/// Moves a span's byte range from the original text onto the cleaned one:
/// each end goes through the original-to-cleaned map, and an end past the
/// map goes to the end of the cleaned text.
pub fn remap_range(orig_to_clean: &[usize], clean_len: usize, start: usize, end: usize) -> (r: (
    usize,
    usize,
))
    ensures
        r.0 == if start < orig_to_clean@.len() {
            orig_to_clean@[start as int]
        } else {
            clean_len
        },
        r.1 == if end < orig_to_clean@.len() {
            orig_to_clean@[end as int]
        } else {
            clean_len
        },
{
    let s = if start < orig_to_clean.len() {
        orig_to_clean[start]
    } else {
        clean_len
    };
    let e = if end < orig_to_clean.len() {
        orig_to_clean[end]
    } else {
        clean_len
    };
    (s, e)
}

/// Every cleaned byte offset below `clean_offset(chars, n)` lies within a kept
/// character before character `n`.
pub proof fn lemma_locate_clean(chars: Seq<char>, q: int, n: int)
    requires
        0 <= n <= chars.len(),
        0 <= q < clean_offset(chars, n),
    ensures
        exists|j: int|
            0 <= j < n && keeps(chars[j]) && clean_offset(chars, j) <= q < clean_offset(chars, j)
                + width(chars[j]),
    decreases n,
{
    if n > 0 {
        lemma_cleaned_step(chars, n - 1);
        if q < clean_offset(chars, n - 1) {
            lemma_locate_clean(chars, q, n - 1);
        } else {
            assert(keeps(chars[n - 1]));
        }
    } else {
        assert(chars.take(0) =~= Seq::<char>::empty());
        reveal(Seq::filter);
        assert(cleaned(chars.take(0)) =~= Seq::<char>::empty());
    }
}

/// Every original byte offset below `byte_offset(chars, n)` lies within a
/// character before character `n`.
pub proof fn lemma_locate_byte(chars: Seq<char>, p: int, n: int)
    requires
        0 <= n <= chars.len(),
        0 <= p < byte_offset(chars, n),
    ensures
        exists|j: int|
            0 <= j < n && #[trigger] byte_offset(chars, j) <= p < byte_offset(chars, j) + width(
                chars[j],
            ),
    decreases n,
{
    if n > 0 {
        lemma_byte_offset_step(chars, n - 1);
        if p < byte_offset(chars, n - 1) {
            lemma_locate_byte(chars, p, n - 1);
        }
    } else {
        assert(chars.take(0) =~= Seq::<char>::empty());
    }
}

/// Mapping a cleaned byte offset to the original text and back gives it
/// back, for every offset of the cleaned text and its end.
pub proof fn lemma_clean_offsets_round_trip(
    chars: Seq<char>,
    o2c: Seq<usize>,
    c2o: Seq<usize>,
    q: int,
)
    requires
        byte_maps(chars, o2c, c2o),
        0 <= q <= clean_offset(chars, chars.len() as int),
    ensures
        0 <= c2o[q] < o2c.len(),
        o2c[c2o[q] as int] == q,
{
    let clean_total = clean_offset(chars, chars.len() as int);
    assert(chars.take(chars.len() as int) =~= chars);
    if q < clean_total {
        lemma_locate_clean(chars, q, chars.len() as int);
        let j = choose|j: int|
            0 <= j < chars.len() && keeps(chars[j]) && clean_offset(chars, j) <= q
                < clean_offset(chars, j) + width(chars[j]);
        let i = q - clean_offset(chars, j);
        lemma_byte_offset_step(chars, j);
        lemma_cleaned_step(chars, j);
        lemma_offsets_monotone(chars, j + 1, chars.len() as int);
        assert(orig_map_ok(chars, o2c, j) && clean_map_ok(chars, c2o, j));
        let from = byte_offset(chars, j) as int;
        let to = clean_offset(chars, j) as int;
        let w = width(chars[j]) as int;
        assert(c2o.subrange(to, to + w)[i] == c2o[q]);
        assert(o2c.subrange(from, from + w)[i] == o2c[from + i]);
    }
}

/// Mapping an original byte offset that falls in a kept character to the
/// cleaned text and back gives it back.
pub proof fn lemma_kept_offsets_round_trip(
    chars: Seq<char>,
    o2c: Seq<usize>,
    c2o: Seq<usize>,
    j: int,
    i: int,
)
    requires
        byte_maps(chars, o2c, c2o),
        0 <= j < chars.len(),
        keeps(chars[j]),
        0 <= i < width(chars[j]),
    ensures
        o2c[byte_offset(chars, j) + i] == clean_offset(chars, j) + i,
        c2o[clean_offset(chars, j) + i] == byte_offset(chars, j) + i,
{
    lemma_byte_offset_step(chars, j);
    lemma_cleaned_step(chars, j);
    lemma_offsets_monotone(chars, j + 1, chars.len() as int);
    assert(chars.take(chars.len() as int) =~= chars);
    assert(orig_map_ok(chars, o2c, j) && clean_map_ok(chars, c2o, j));
    let from = byte_offset(chars, j) as int;
    let to = clean_offset(chars, j) as int;
    let w = width(chars[j]) as int;
    assert(o2c.subrange(from, from + w)[i] == o2c[from + i]);
    assert(c2o.subrange(to, to + w)[i] == c2o[to + i]);
}

/// The original-to-cleaned map never goes backwards.
pub proof fn lemma_orig_map_monotone(
    chars: Seq<char>,
    o2c: Seq<usize>,
    c2o: Seq<usize>,
    p1: int,
    p2: int,
)
    requires
        byte_maps(chars, o2c, c2o),
        0 <= p1 <= p2 < o2c.len(),
    ensures
        o2c[p1] <= o2c[p2],
{
    let n = chars.len() as int;
    assert(chars.take(n) =~= chars);
    lemma_offsets_monotone(chars, 0, n);
    lemma_map_value_bounds(chars, o2c, c2o, p1);
    lemma_map_value_bounds(chars, o2c, c2o, p2);
    let total = encode_utf8(chars).len() as int;
    if p1 < total {
        lemma_locate_byte(chars, p1, n);
        let j1 = choose|j: int|
            0 <= j < n && #[trigger] byte_offset(chars, j) <= p1 < byte_offset(chars, j) + width(
                chars[j],
            );
        if p2 < total {
            lemma_locate_byte(chars, p2, n);
            let j2 = choose|j: int|
                0 <= j < n && #[trigger] byte_offset(chars, j) <= p2 < byte_offset(chars, j)
                    + width(chars[j]);
            if j2 < j1 {
                lemma_offsets_within(chars, j2, j1);
            } else if j1 < j2 {
                lemma_offsets_within(chars, j1, j2);
                lemma_offsets_monotone(chars, j1 + 1, j2);
            } else {
                lemma_same_char_order(chars, o2c, c2o, j1, p1, p2);
            }
        } else {
            lemma_offsets_monotone(chars, j1 + 1, n);
        }
    }
}

/// Within one character the map does not go backwards.
proof fn lemma_same_char_order(
    chars: Seq<char>,
    o2c: Seq<usize>,
    c2o: Seq<usize>,
    j: int,
    p1: int,
    p2: int,
)
    requires
        byte_maps(chars, o2c, c2o),
        0 <= j < chars.len(),
        byte_offset(chars, j) <= p1 <= p2 < byte_offset(chars, j) + width(chars[j]),
    ensures
        o2c[p1] <= o2c[p2],
{
    assert(orig_map_ok(chars, o2c, j));
    lemma_byte_offset_step(chars, j);
    lemma_cleaned_step(chars, j);
    lemma_offsets_monotone(chars, j + 1, chars.len() as int);
    assert(chars.take(chars.len() as int) =~= chars);
    let from = byte_offset(chars, j) as int;
    let w = width(chars[j]) as int;
    assert(o2c.subrange(from, from + w)[p1 - from] == o2c[p1]);
    assert(o2c.subrange(from, from + w)[p2 - from] == o2c[p2]);
}

/// Where the map sends an original byte offset: for a byte of character `j`,
/// between where `j` starts and where the next character starts in the
/// cleaned text; for the end, the cleaned end.
proof fn lemma_map_value_bounds(chars: Seq<char>, o2c: Seq<usize>, c2o: Seq<usize>, p: int)
    requires
        byte_maps(chars, o2c, c2o),
        0 <= p < o2c.len(),
    ensures
        p < encode_utf8(chars).len() ==> forall|j: int|
            0 <= j < chars.len() && #[trigger] byte_offset(chars, j) <= p < byte_offset(chars, j)
                + width(chars[j]) ==> clean_offset(chars, j) <= o2c[p] <= clean_offset(chars, j + 1),
{
    assert forall|j: int|
        0 <= j < chars.len() && #[trigger] byte_offset(chars, j) <= p < byte_offset(chars, j)
            + width(chars[j]) implies clean_offset(chars, j) <= o2c[p] <= clean_offset(chars, j + 1) by {
        assert(orig_map_ok(chars, o2c, j));
        lemma_byte_offset_step(chars, j);
        lemma_cleaned_step(chars, j);
        lemma_offsets_monotone(chars, j + 1, chars.len() as int);
        assert(chars.take(chars.len() as int) =~= chars);
        let from = byte_offset(chars, j) as int;
        let w = width(chars[j]) as int;
        assert(o2c.subrange(from, from + w)[p - from] == o2c[p]);
        lemma_cleaned_step(chars, j);
    }
}

} // verus!
