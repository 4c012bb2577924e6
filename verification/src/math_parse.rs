//! Minimal MathML parser.
//!
//! Parses the document model's canonical MathML string into a lightweight
//! element tree. A hand-rolled byte scanner is used instead of an XML crate;
//! the input is compact MathML produced by the importers. Structure, token
//! text and attributes are retained, and the five predefined XML entities are
//! decoded in token text and attribute values.
//!
//! The scanner is specified by the spec functions below, which read the input
//! bytes directly: the parsed tree of a string is `mathml_tree`, and the
//! scanner returns a node whose [`MNode::tree`] is exactly that tree.

use vstd::prelude::*;
use vstd::utf8::*;
use vstd::string::*;

verus! {

broadcast use vstd::seq_lib::group_seq_properties;

// ── Byte classes ────────────────────────────────────────────────────────────

/// XML white space: space, tab, line feed, carriage return.
pub open spec fn is_xml_space(c: u8) -> bool {
    c == 0x20 || c == 0x09 || c == 0x0a || c == 0x0d
}

/// A byte that ends an element name: white space, `/` or `>`.
pub open spec fn ends_name(c: u8) -> bool {
    is_xml_space(c) || c == 0x2f || c == 0x3e
}

/// A byte that ends an attribute name: `=` or anything that ends a name.
pub open spec fn ends_attr_name(c: u8) -> bool {
    c == 0x3d || ends_name(c)
}

// ── Scanning positions ──────────────────────────────────────────────────────

/// The first index at or after `pos` holding `c`, or the length.
pub open spec fn find_byte(b: Seq<u8>, pos: int, c: u8) -> int
    decreases b.len() - pos,
{
    if pos >= b.len() {
        b.len() as int
    } else if b[pos] == c {
        pos
    } else {
        find_byte(b, pos + 1, c)
    }
}

/// The first index at or after `pos` that ends an element name, or the length.
pub open spec fn name_end(b: Seq<u8>, pos: int) -> int
    decreases b.len() - pos,
{
    if pos >= b.len() {
        b.len() as int
    } else if ends_name(b[pos]) {
        pos
    } else {
        name_end(b, pos + 1)
    }
}

/// The first index at or after `pos` that ends an attribute name, or the
/// length.
pub open spec fn attr_name_end(b: Seq<u8>, pos: int) -> int
    decreases b.len() - pos,
{
    if pos >= b.len() {
        b.len() as int
    } else if ends_attr_name(b[pos]) {
        pos
    } else {
        attr_name_end(b, pos + 1)
    }
}

/// The position just past the next `>` at or after `pos`, or the length.
pub open spec fn past_gt(b: Seq<u8>, pos: int) -> int {
    let i = find_byte(b, pos, 0x3e);
    if i < b.len() {
        i + 1
    } else {
        i
    }
}

pub proof fn lemma_find_byte(b: Seq<u8>, pos: int, c: u8)
    requires
        0 <= pos <= b.len(),
    ensures
        pos <= find_byte(b, pos, c) <= b.len(),
        find_byte(b, pos, c) < b.len() ==> b[find_byte(b, pos, c)] == c,
        forall|k: int| pos <= k < find_byte(b, pos, c) ==> b[k] != c,
    decreases b.len() - pos,
{
    if pos < b.len() && b[pos] != c {
        lemma_find_byte(b, pos + 1, c);
    }
}

pub proof fn lemma_name_end(b: Seq<u8>, pos: int)
    requires
        0 <= pos <= b.len(),
    ensures
        pos <= name_end(b, pos) <= b.len(),
        name_end(b, pos) < b.len() ==> ends_name(b[name_end(b, pos)]),
        forall|k: int| pos <= k < name_end(b, pos) ==> !ends_name(b[k]),
    decreases b.len() - pos,
{
    if pos < b.len() && !ends_name(b[pos]) {
        lemma_name_end(b, pos + 1);
    }
}

pub proof fn lemma_attr_name_end(b: Seq<u8>, pos: int)
    requires
        0 <= pos <= b.len(),
    ensures
        pos <= attr_name_end(b, pos) <= b.len(),
        attr_name_end(b, pos) < b.len() ==> ends_attr_name(b[attr_name_end(b, pos)]),
        forall|k: int| pos <= k < attr_name_end(b, pos) ==> !ends_attr_name(b[k]),
    decreases b.len() - pos,
{
    if pos < b.len() && !ends_attr_name(b[pos]) {
        lemma_attr_name_end(b, pos + 1);
    }
}

pub proof fn lemma_past_gt(b: Seq<u8>, pos: int)
    requires
        0 <= pos <= b.len(),
    ensures
        pos <= past_gt(b, pos) <= b.len(),
        pos < b.len() && b[pos] != 0x3e ==> pos < past_gt(b, pos),
{
    lemma_find_byte(b, pos, 0x3e);
}

// ── Names and entities ──────────────────────────────────────────────────────

/// The bytes after the last `:` in `name` (the local part of a qualified
/// name), or the whole name when it has no `:`.
pub open spec fn local_part(name: Seq<u8>) -> Seq<u8>
    decreases name.len(),
{
    if name.len() == 0 {
        name
    } else if name.last() == 0x3a {
        Seq::empty()
    } else {
        local_part(name.drop_last()).push(name.last())
    }
}

/// `s` with every non-overlapping occurrence of `pat`, scanning left to
/// right, replaced by `rep`.
pub open spec fn replace_all(s: Seq<u8>, pat: Seq<u8>, rep: Seq<u8>) -> Seq<u8>
    decreases s.len(),
{
    if s.len() == 0 {
        s
    } else if 0 < pat.len() <= s.len() && s.subrange(0, pat.len() as int) == pat {
        rep + replace_all(s.subrange(pat.len() as int, s.len() as int), pat, rep)
    } else {
        seq![s[0]] + replace_all(s.drop_first(), pat, rep)
    }
}

pub open spec fn entity_lt() -> Seq<u8> {
    seq![0x26u8, 0x6cu8, 0x74u8, 0x3bu8]
}

pub open spec fn entity_gt() -> Seq<u8> {
    seq![0x26u8, 0x67u8, 0x74u8, 0x3bu8]
}

pub open spec fn entity_quot() -> Seq<u8> {
    seq![0x26u8, 0x71u8, 0x75u8, 0x6fu8, 0x74u8, 0x3bu8]
}

pub open spec fn entity_apos() -> Seq<u8> {
    seq![0x26u8, 0x61u8, 0x70u8, 0x6fu8, 0x73u8, 0x3bu8]
}

pub open spec fn entity_amp() -> Seq<u8> {
    seq![0x26u8, 0x61u8, 0x6du8, 0x70u8, 0x3bu8]
}

/// Decodes the five XML predefined entities, in the order `&lt;`, `&gt;`,
/// `&quot;`, `&apos;`, `&amp;` (so `&amp;lt;` decodes to `&lt;`).
pub open spec fn unescape(s: Seq<u8>) -> Seq<u8> {
    let s1 = replace_all(s, entity_lt(), seq![0x3cu8]);
    let s2 = replace_all(s1, entity_gt(), seq![0x3eu8]);
    let s3 = replace_all(s2, entity_quot(), seq![0x22u8]);
    let s4 = replace_all(s3, entity_apos(), seq![0x27u8]);
    replace_all(s4, entity_amp(), seq![0x26u8])
}

/// Whether `s` holds no `&` byte.
pub open spec fn has_no_amp(s: Seq<u8>) -> bool {
    forall|i: int| 0 <= i < s.len() ==> s[i] != 0x26
}

/// The shape of an XML entity reference: `&`, a name with neither `&` nor
/// `;` in it, and `;`.
pub open spec fn is_entity_ref(e: Seq<u8>) -> bool {
    &&& e.len() >= 2
    &&& e[0] == 0x26
    &&& e[e.len() - 1] == 0x3b
    &&& forall|i: int| 0 < i < e.len() - 1 ==> e[i] != 0x26 && e[i] != 0x3b
}

/// The five predefined XML entities `&lt;`, `&gt;`, `&quot;`, `&apos;` and
/// `&amp;`, in that order, as bytes.
pub open spec fn predefined_entity(k: nat) -> Seq<u8> {
    if k == 0 {
        seq![0x26u8, 0x6cu8, 0x74u8, 0x3bu8]
    } else if k == 1 {
        seq![0x26u8, 0x67u8, 0x74u8, 0x3bu8]
    } else if k == 2 {
        seq![0x26u8, 0x71u8, 0x75u8, 0x6fu8, 0x74u8, 0x3bu8]
    } else if k == 3 {
        seq![0x26u8, 0x61u8, 0x70u8, 0x6fu8, 0x73u8, 0x3bu8]
    } else {
        seq![0x26u8, 0x61u8, 0x6du8, 0x70u8, 0x3bu8]
    }
}

/// The character predefined entity `k` stands for: `<`, `>`, `"`, `'`, `&`.
pub open spec fn predefined_entity_char(k: nat) -> u8 {
    if k == 0 {
        0x3c
    } else if k == 1 {
        0x3e
    } else if k == 2 {
        0x22
    } else if k == 3 {
        0x27
    } else {
        0x26
    }
}

/// Replacing an entity in text without `&` leaves the text alone.
proof fn lemma_replace_without_amp(s: Seq<u8>, pat: Seq<u8>, rep: Seq<u8>)
    requires
        is_entity_ref(pat),
        has_no_amp(s),
    ensures
        replace_all(s, pat, rep) == s,
    decreases s.len(),
{
    if s.len() > 0 {
        if pat.len() <= s.len() {
            assert(s.subrange(0, pat.len() as int)[0] != pat[0]);
        }
        lemma_replace_without_amp(s.drop_first(), pat, rep);
        assert(seq![s[0]] + s.drop_first() =~= s);
    }
}

/// Text without `&` in front passes through a replacement unchanged.
proof fn lemma_replace_after_plain(a: Seq<u8>, t: Seq<u8>, pat: Seq<u8>, rep: Seq<u8>)
    requires
        is_entity_ref(pat),
        has_no_amp(a),
    ensures
        replace_all(a + t, pat, rep) == a + replace_all(t, pat, rep),
    decreases a.len(),
{
    if a.len() > 0 {
        let s = a + t;
        if pat.len() <= s.len() {
            assert(s.subrange(0, pat.len() as int)[0] != pat[0]);
        }
        assert(s.drop_first() =~= a.drop_first() + t);
        lemma_replace_after_plain(a.drop_first(), t, pat, rep);
        assert(seq![a[0]] + (a.drop_first() + replace_all(t, pat, rep)) =~= a + replace_all(
            t,
            pat,
            rep,
        ));
    } else {
        assert(a + t =~= t);
        assert(a + replace_all(t, pat, rep) =~= replace_all(t, pat, rep));
    }
}

/// One replacement pass over text whose only `&` starts entity `e`: the
/// entity is replaced when it is the one sought, and kept otherwise.
proof fn lemma_replace_one_entity(
    a: Seq<u8>,
    e: Seq<u8>,
    b: Seq<u8>,
    pat: Seq<u8>,
    rep: Seq<u8>,
)
    requires
        is_entity_ref(e),
        is_entity_ref(pat),
        has_no_amp(a),
        has_no_amp(b),
    ensures
        replace_all(a + e + b, pat, rep) == if e == pat {
            a + rep + b
        } else {
            a + e + b
        },
{
    lemma_replace_after_plain(a, e + b, pat, rep);
    assert(a + e + b =~= a + (e + b));
    let s = e + b;
    let p = pat.len() as int;
    lemma_replace_without_amp(b, pat, rep);
    if e == pat {
        assert(s.subrange(0, p) =~= pat);
        assert(s.subrange(p, s.len() as int) =~= b);
        assert(a + (rep + b) =~= a + rep + b);
    } else {
        if p <= s.len() && s.subrange(0, p) == pat {
            let q = e.len() as int;
            if p <= q {
                assert(s[p - 1] == 0x3b);
                assert(e[p - 1] == 0x3b);
                assert(p - 1 == q - 1);
                assert(e =~= pat);
            } else {
                assert(pat[q - 1] == s[q - 1]);
                assert(s[q - 1] == 0x3b);
            }
        }
        let t = e.drop_first() + b;
        assert(s.drop_first() =~= t);
        lemma_replace_without_amp(t, pat, rep);
        assert(seq![s[0]] + t =~= s);
        assert(a + (e + b) =~= a + e + b);
    }
}

/// Decoding a text holding no `&` leaves it unchanged.
pub proof fn lemma_unescape_plain_text(s: Seq<u8>)
    requires
        has_no_amp(s),
    ensures
        unescape(s) == s,
{
    lemma_predefined_entities();
    lemma_replace_without_amp(s, entity_lt(), seq![0x3cu8]);
    lemma_replace_without_amp(s, entity_gt(), seq![0x3eu8]);
    lemma_replace_without_amp(s, entity_quot(), seq![0x22u8]);
    lemma_replace_without_amp(s, entity_apos(), seq![0x27u8]);
    lemma_replace_without_amp(s, entity_amp(), seq![0x26u8]);
}

proof fn lemma_predefined_entities()
    ensures
        forall|k: nat| k < 5 ==> is_entity_ref(#[trigger] predefined_entity(k)),
        forall|k: nat, j: nat| k < 5 && j < 5 && k != j ==> #[trigger] predefined_entity(k)
            != #[trigger] predefined_entity(j),
        is_entity_ref(entity_lt()),
        is_entity_ref(entity_gt()),
        is_entity_ref(entity_quot()),
        is_entity_ref(entity_apos()),
        is_entity_ref(entity_amp()),
{
    assert forall|k: nat, j: nat| k < 5 && j < 5 && k != j implies #[trigger] predefined_entity(k)
        != #[trigger] predefined_entity(j) by {
        let (x, y) = (predefined_entity(k), predefined_entity(j));
        if x.len() == y.len() {
            assert(x[1] != y[1] || x[2] != y[2]);
        }
    }
}

/// Each predefined entity decodes to its character, wherever it stands in a
/// text that holds no other `&`: `a&gt;b` decodes to `a>b`, `a&amp;b` to
/// `a&b`, and so on for `&lt;`, `&quot;` and `&apos;`.
pub proof fn lemma_unescape_entity(a: Seq<u8>, k: nat, b: Seq<u8>)
    requires
        k < 5,
        has_no_amp(a),
        has_no_amp(b),
    ensures
        unescape(a + predefined_entity(k) + b) == a + seq![predefined_entity_char(k)] + b,
{
    lemma_predefined_entities();
    let e = predefined_entity(k);
    let r = a + seq![predefined_entity_char(k)] + b;
    let after_0 = a + e + b;
    let pats = seq![entity_lt(), entity_gt(), entity_quot(), entity_apos(), entity_amp()];
    let reps = seq![seq![0x3cu8], seq![0x3eu8], seq![0x22u8], seq![0x27u8], seq![0x26u8]];
    assert(entity_lt() == predefined_entity(0));
    assert(entity_gt() == predefined_entity(1));
    assert(entity_quot() == predefined_entity(2));
    assert(entity_apos() == predefined_entity(3));
    assert(entity_amp() == predefined_entity(4));
    assert(a + reps[k as int] + b =~= r);
    if k < 4 {
        assert(has_no_amp(r)) by {
            assert forall|i: int| 0 <= i < r.len() implies r[i] != 0x26 by {
                if i < a.len() {
                    assert(r[i] == a[i]);
                } else if i > a.len() {
                    assert(r[i] == b[i - a.len() - 1]);
                }
            }
        }
    }
    // Pass by pass: the entity is kept until its own pass replaces it, and
    // text without `&` passes through every later pass.
    lemma_replace_one_entity(a, e, b, entity_lt(), seq![0x3cu8]);
    let after_1 = replace_all(after_0, entity_lt(), seq![0x3cu8]);
    if k == 0 {
        lemma_replace_without_amp(after_1, entity_gt(), seq![0x3eu8]);
    } else {
        lemma_replace_one_entity(a, e, b, entity_gt(), seq![0x3eu8]);
    }
    let after_2 = replace_all(after_1, entity_gt(), seq![0x3eu8]);
    if k <= 1 {
        lemma_replace_without_amp(after_2, entity_quot(), seq![0x22u8]);
    } else {
        lemma_replace_one_entity(a, e, b, entity_quot(), seq![0x22u8]);
    }
    let after_3 = replace_all(after_2, entity_quot(), seq![0x22u8]);
    if k <= 2 {
        lemma_replace_without_amp(after_3, entity_apos(), seq![0x27u8]);
    } else {
        lemma_replace_one_entity(a, e, b, entity_apos(), seq![0x27u8]);
    }
    let after_4 = replace_all(after_3, entity_apos(), seq![0x27u8]);
    if k <= 3 {
        lemma_replace_without_amp(after_4, entity_amp(), seq![0x26u8]);
    } else {
        lemma_replace_one_entity(a, e, b, entity_amp(), seq![0x26u8]);
    }
}

/// Decoding goes one level deep: an escaped entity, `&amp;` followed by the
/// rest of an entity, decodes to that entity and no further (`&amp;gt;` to
/// `&gt;`, `&amp;amp;` to `&amp;`), wherever it stands in a text that holds
/// no other `&`.
pub proof fn lemma_unescape_escaped_entity(a: Seq<u8>, k: nat, b: Seq<u8>)
    requires
        k < 5,
        has_no_amp(a),
        has_no_amp(b),
    ensures
        unescape(a + predefined_entity(4) + predefined_entity(k).drop_first() + b) == a
            + predefined_entity(k) + b,
{
    lemma_predefined_entities();
    let e = predefined_entity(k);
    let rest = e.drop_first() + b;
    assert(has_no_amp(rest)) by {
        assert forall|i: int| 0 <= i < rest.len() implies rest[i] != 0x26 by {
            if i < e.len() - 1 {
                assert(rest[i] == e[i + 1]);
            } else {
                assert(rest[i] == b[i - (e.len() - 1)]);
            }
        }
    }
    let amp = predefined_entity(4);
    assert(a + amp + e.drop_first() + b =~= a + amp + rest);
    assert(entity_lt() == predefined_entity(0));
    assert(entity_gt() == predefined_entity(1));
    assert(entity_quot() == predefined_entity(2));
    assert(entity_apos() == predefined_entity(3));
    assert(entity_amp() == amp);
    lemma_replace_one_entity(a, amp, rest, entity_lt(), seq![0x3cu8]);
    lemma_replace_one_entity(a, amp, rest, entity_gt(), seq![0x3eu8]);
    lemma_replace_one_entity(a, amp, rest, entity_quot(), seq![0x22u8]);
    lemma_replace_one_entity(a, amp, rest, entity_apos(), seq![0x27u8]);
    lemma_replace_one_entity(a, amp, rest, entity_amp(), seq![0x26u8]);
    assert(a + seq![0x26u8] + rest =~= a + e + b);
}

/// What `String::from_utf8_lossy` decodes `bytes` to.
pub uninterp spec fn utf8_lossy(bytes: Seq<u8>) -> Seq<char>;

/// Decodes bytes to a `String` with `String::from_utf8_lossy`: valid UTF-8 is
/// decoded as is; each invalid sequence becomes U+FFFD.
#[verifier::external_body]
fn string_from_utf8_lossy(bytes: &[u8]) -> (s: String)
    ensures
        s@ == utf8_lossy(bytes@),
        valid_utf8(bytes@) ==> s@ == decode_utf8(bytes@),
{
    String::from_utf8_lossy(bytes).into_owned()
}

// ── The parsed tree ─────────────────────────────────────────────────────────

/// The mathematical content of a parsed element.
pub struct MathTree {
    pub tag: Seq<char>,
    pub text: Seq<char>,
    pub children: Seq<MathTree>,
    pub attrs: Seq<(Seq<char>, Seq<char>)>,
}

/// Raw attributes as read from the tag: (local name, unescaped value) bytes.
pub open spec fn decode_attrs(raw: Seq<(Seq<u8>, Seq<u8>)>) -> Seq<(Seq<char>, Seq<char>)> {
    Seq::new(raw.len(), |i: int| (utf8_lossy(raw[i].0), utf8_lossy(raw[i].1)))
}

/// The value read after `=` at `pos`: quoted (up to the matching quote, which
/// is consumed when present) or unquoted (up to the end of an attribute
/// name). Returns the value bytes and the position after them.
pub open spec fn attr_value(b: Seq<u8>, pos: int) -> (Seq<u8>, int) {
    if pos < b.len() && (b[pos] == 0x22 || b[pos] == 0x27) {
        let e = find_byte(b, pos + 1, b[pos]);
        (b.subrange(pos + 1, e), if e < b.len() {
            e + 1
        } else {
            e
        })
    } else {
        let e = attr_name_end(b, pos);
        (b.subrange(pos, e), e)
    }
}

pub proof fn lemma_attr_value(b: Seq<u8>, pos: int)
    requires
        0 <= pos <= b.len(),
    ensures
        pos <= attr_value(b, pos).1 <= b.len(),
{
    if pos < b.len() && (b[pos] == 0x22 || b[pos] == 0x27) {
        lemma_find_byte(b, pos + 1, b[pos]);
    } else {
        lemma_attr_name_end(b, pos);
    }
}

/// The outcome of scanning the attributes of a start tag.
pub struct AttrScan {
    pub attrs: Seq<(Seq<u8>, Seq<u8>)>,
    pub self_closing: bool,
    pub end: int,
}

/// Scans attributes from `pos` to the end of the start tag; a `/` that does
/// not close the tag is stepped over.
pub open spec fn scan_attrs(b: Seq<u8>, pos: int) -> AttrScan
    decreases b.len() - pos,
{
    if pos < 0 || pos >= b.len() {
        AttrScan { attrs: Seq::empty(), self_closing: false, end: pos }
    } else if is_xml_space(b[pos]) {
        scan_attrs(b, pos + 1)
    } else if b[pos] == 0x3e {
        AttrScan { attrs: Seq::empty(), self_closing: false, end: pos + 1 }
    } else if b[pos] == 0x2f && pos + 1 < b.len() && b[pos + 1] == 0x3e {
        AttrScan { attrs: Seq::empty(), self_closing: true, end: pos + 2 }
    } else if b[pos] == 0x2f {
        scan_attrs(b, pos + 1)
    } else {
        let ne = attr_name_end(b, pos);
        let name = b.subrange(pos, ne);
        let value = if ne < b.len() && b[ne] == 0x3d {
            attr_value(b, ne + 1)
        } else {
            (Seq::<u8>::empty(), ne)
        };
        proof {
            lemma_attr_name_end(b, pos);
            if ne < b.len() && b[ne] == 0x3d {
                lemma_attr_value(b, ne + 1);
            }
        }
        let rest = scan_attrs(b, value.1);
        AttrScan {
            attrs: if name.len() > 0 {
                seq![(local_part(name), unescape(value.0))] + rest.attrs
            } else {
                rest.attrs
            },
            self_closing: rest.self_closing,
            end: rest.end,
        }
    }
}

pub proof fn lemma_scan_attrs(b: Seq<u8>, pos: int)
    requires
        0 <= pos <= b.len(),
    ensures
        pos <= scan_attrs(b, pos).end <= b.len(),
    decreases b.len() - pos,
{
    if pos < b.len() {
        if is_xml_space(b[pos]) {
            lemma_scan_attrs(b, pos + 1);
        } else if b[pos] == 0x3e || (b[pos] == 0x2f && pos + 1 < b.len() && b[pos + 1] == 0x3e) {
        } else if b[pos] == 0x2f {
            lemma_scan_attrs(b, pos + 1);
        } else {
            let ne = attr_name_end(b, pos);
            lemma_attr_name_end(b, pos);
            if ne < b.len() && b[ne] == 0x3d {
                lemma_attr_value(b, ne + 1);
                lemma_scan_attrs(b, attr_value(b, ne + 1).1);
            } else {
                lemma_scan_attrs(b, ne);
            }
        }
    }
}

/// The outcome of scanning one element.
pub struct ElemScan {
    pub tree: MathTree,
    pub end: int,
    /// The scan left the input or made no progress; never the case from a
    /// `<` inside the input (see [`lemma_scan_element_progresses`]).
    pub stuck: bool,
}

/// The outcome of scanning an element's content up to its end tag.
pub struct ContentScan {
    pub children: Seq<MathTree>,
    pub text: Seq<u8>,
    pub end: int,
    /// The scan left the input or made no progress; never the case from a
    /// position inside the input (see [`lemma_scan_content_progresses`]).
    pub stuck: bool,
}

/// Scans the element whose `<` is at `pos`.
pub open spec fn scan_element(b: Seq<u8>, pos: int) -> ElemScan
    decreases b.len() - pos, 0int,
{
    if pos < 0 || pos >= b.len() {
        ElemScan {
            tree: MathTree {
                tag: Seq::empty(),
                text: Seq::empty(),
                children: Seq::empty(),
                attrs: Seq::empty(),
            },
            end: pos,
            stuck: true,
        }
    } else {
        let ne = name_end(b, pos + 1);
        let a = scan_attrs(b, ne);
        let tag = utf8_lossy(local_part(b.subrange(pos + 1, ne)));
        let attrs = decode_attrs(a.attrs);
        proof {
            lemma_name_end(b, pos + 1);
            lemma_scan_attrs(b, ne);
        }
        if a.self_closing {
            ElemScan {
                tree: MathTree {
                    tag,
                    text: Seq::empty(),
                    children: Seq::empty(),
                    attrs,
                },
                end: a.end,
                stuck: false,
            }
        } else {
            let c = scan_content(b, a.end, Seq::empty(), Seq::empty());
            ElemScan {
                tree: MathTree { tag, text: utf8_lossy(c.text), children: c.children, attrs },
                end: c.end,
                stuck: c.stuck,
            }
        }
    }
}

/// Scans element content from `pos`: character data (entities decoded) and
/// child elements, up to and including the end tag. `children` and `text`
/// are what was read before `pos`.
pub open spec fn scan_content(
    b: Seq<u8>,
    pos: int,
    children: Seq<MathTree>,
    text: Seq<u8>,
) -> ContentScan
    decreases b.len() - pos, 1int,
{
    if pos < 0 || pos > b.len() {
        ContentScan { children, text, end: pos, stuck: true }
    } else {
        let te = find_byte(b, pos, 0x3c);
        let text2 = text + unescape(b.subrange(pos, te));
        proof {
            lemma_find_byte(b, pos, 0x3c);
        }
        if te >= b.len() {
            ContentScan { children, text: text2, end: te, stuck: false }
        } else if te + 1 < b.len() && b[te + 1] == 0x2f {
            ContentScan { children, text: text2, end: past_gt(b, te), stuck: false }
        } else {
            let e = scan_element(b, te);
            if e.stuck {
                ContentScan { children: children.push(e.tree), text: text2, end: e.end, stuck: true }
            } else if pos < e.end <= b.len() {
                scan_content(b, e.end, children.push(e.tree), text2)
            } else {
                ContentScan { children: children.push(e.tree), text: text2, end: e.end, stuck: true }
            }
        }
    }
}

/// Scans forward from `pos` to the first element, skipping declarations
/// (`<?…?>`) and comments or doctypes (`<!…>`), and scans it.
pub open spec fn scan_first_element(b: Seq<u8>, pos: int) -> Option<ElemScan>
    decreases b.len() - pos,
{
    if pos < 0 || pos >= b.len() {
        None
    } else {
        let i = find_byte(b, pos, 0x3c);
        proof {
            lemma_find_byte(b, pos, 0x3c);
            if i < b.len() {
                lemma_past_gt(b, i);
            }
        }
        if i >= b.len() {
            None
        } else if i + 1 < b.len() && (b[i + 1] == 0x3f || b[i + 1] == 0x21) {
            scan_first_element(b, past_gt(b, i))
        } else {
            Some(scan_element(b, i))
        }
    }
}

/// Scanning an element from a `<` inside the input always finishes, past
/// that `<` and within the input.
pub proof fn lemma_scan_element_progresses(b: Seq<u8>, pos: int)
    requires
        0 <= pos < b.len(),
    ensures
        !scan_element(b, pos).stuck,
        pos < scan_element(b, pos).end <= b.len(),
    decreases b.len() - pos, 0int,
{
    let ne = name_end(b, pos + 1);
    lemma_name_end(b, pos + 1);
    lemma_scan_attrs(b, ne);
    let a = scan_attrs(b, ne);
    if !a.self_closing {
        lemma_scan_content_progresses(b, a.end, Seq::empty(), Seq::empty());
    }
}

/// Scanning element content from a position inside the input (or its end)
/// always finishes, within the input.
pub proof fn lemma_scan_content_progresses(
    b: Seq<u8>,
    pos: int,
    children: Seq<MathTree>,
    text: Seq<u8>,
)
    requires
        0 <= pos <= b.len(),
    ensures
        !scan_content(b, pos, children, text).stuck,
        pos <= scan_content(b, pos, children, text).end <= b.len(),
    decreases b.len() - pos, 1int,
{
    let te = find_byte(b, pos, 0x3c);
    lemma_find_byte(b, pos, 0x3c);
    let text2 = text + unescape(b.subrange(pos, te));
    if te >= b.len() {
    } else if te + 1 < b.len() && b[te + 1] == 0x2f {
        lemma_past_gt(b, te);
    } else {
        lemma_scan_element_progresses(b, te);
        let e = scan_element(b, te);
        lemma_scan_content_progresses(b, e.end, children.push(e.tree), text2);
    }
}

/// Scanning for the first element never gets stuck.
pub proof fn lemma_scan_first_element_progresses(b: Seq<u8>, pos: int)
    requires
        0 <= pos <= b.len(),
    ensures
        match scan_first_element(b, pos) {
            Some(e) => !e.stuck,
            None => true,
        },
    decreases b.len() - pos,
{
    if pos < b.len() {
        let i = find_byte(b, pos, 0x3c);
        lemma_find_byte(b, pos, 0x3c);
        if i < b.len() {
            lemma_past_gt(b, i);
            if i + 1 < b.len() && (b[i + 1] == 0x3f || b[i + 1] == 0x21) {
                lemma_scan_first_element_progresses(b, past_gt(b, i));
            } else {
                lemma_scan_element_progresses(b, i);
            }
        }
    }
}

/// The tree parsed from the first element of `s`, if `s` has an element.
pub open spec fn mathml_tree(s: Seq<u8>) -> Option<MathTree> {
    match scan_first_element(s, 0) {
        Some(e) => Some(e.tree),
        None => None,
    }
}

// ── The executable tree ─────────────────────────────────────────────────────

/// A parsed MathML element.
#[derive(Debug, PartialEq)]
pub struct MNode {
    /// Local element name (prefix stripped), e.g. `"mfrac"`, `"mi"`.
    pub tag: String,
    /// Character data for token elements (`mi`/`mn`/`mo`/`mtext`).
    pub text: String,
    /// Child elements, in document order.
    pub children: Vec<MNode>,
    /// Attributes as `(local name, unescaped value)` pairs.
    pub attrs: Vec<(String, String)>,
}

impl Default for MNode {
    /// An element with no name, text, children or attributes.
    fn default() -> (n: MNode)
        ensures
            n.tag@.len() == 0,
            n.text@.len() == 0,
            n.children@.len() == 0,
            n.attrs@.len() == 0,
    {
        MNode { tag: String::new(), text: String::new(), children: Vec::new(), attrs: Vec::new() }
    }
}

impl MNode {
    /// The content of this node as a mathematical tree.
    pub open spec fn tree(&self) -> MathTree
        decreases self,
    {
        MathTree {
            tag: self.tag@,
            text: self.text@,
            children: Seq::new(
                self.children@.len(),
                |i: int|
                    {
                        if 0 <= i < self.children@.len() {
                            proof {
                                assert(decreases_to!(self => self.children));
                                assert(decreases_to!(self.children => self.children@));
                                assert(decreases_to!(self.children@ => self.children@[i]));
                            }
                            self.children@[i].tree()
                        } else {
                            MathTree {
                                tag: Seq::empty(),
                                text: Seq::empty(),
                                children: Seq::empty(),
                                attrs: Seq::empty(),
                            }
                        }
                    },
            ),
            attrs: Seq::new(self.attrs@.len(), |i: int| (self.attrs@[i].0@, self.attrs@[i].1@)),
        }
    }
}

/// The first value bound to `name`, if any.
pub open spec fn attr_lookup(attrs: Seq<(Seq<char>, Seq<char>)>, name: Seq<char>) -> Option<
    Seq<char>,
>
    decreases attrs.len(),
{
    if attrs.len() == 0 {
        None
    } else if attrs[0].0 == name {
        Some(attrs[0].1)
    } else {
        attr_lookup(attrs.drop_first(), name)
    }
}

/// The view of a list of attribute pairs.
pub open spec fn attrs_view(attrs: Seq<(String, String)>) -> Seq<(Seq<char>, Seq<char>)> {
    Seq::new(attrs.len(), |i: int| (attrs[i].0@, attrs[i].1@))
}

/// Whether two byte slices are equal.
fn bytes_equal(a: &[u8], b: &[u8]) -> (r: bool)
    ensures
        r == (a@ == b@),
{
    if a.len() != b.len() {
        return false;
    }
    let n = a.len();
    let mut i: usize = 0;
    while i < n
        invariant
            n == a@.len() == b@.len(),
            i <= n,
            forall|k: int| 0 <= k < i ==> a@[k] == b@[k],
        decreases n - i,
    {
        if a[i] != b[i] {
            return false;
        }
        i = i + 1;
    }
    assert(a@ =~= b@);
    true
}

/// Whether two strings hold the same characters.
fn str_equal(a: &str, b: &str) -> (r: bool)
    ensures
        r == (a@ == b@),
{
    proof {
        vstd::utf8::encode_utf8_decode_utf8(a@);
        vstd::utf8::encode_utf8_decode_utf8(b@);
    }
    bytes_equal(a.as_bytes(), b.as_bytes())
}

impl MNode {
    /// Returns the value of the attribute with the given local `name`, if any.
    pub fn attr(&self, name: &str) -> (r: Option<&str>)
        ensures
            match r {
                Some(v) => attr_lookup(self.tree().attrs, name@) == Some(v@),
                None => attr_lookup(self.tree().attrs, name@) is None,
            },
    {
        let n = self.attrs.len();
        let ghost all = self.tree().attrs;
        let mut i: usize = 0;
        assert(all.subrange(0, n as int) =~= all);
        while i < n
            invariant
                n == self.attrs@.len(),
                all == attrs_view(self.attrs@),
                i <= n,
                attr_lookup(all, name@) == attr_lookup(all.subrange(i as int, n as int), name@),
            decreases n - i,
        {
            let ghost rest = all.subrange(i as int, n as int);
            assert(rest.drop_first() =~= all.subrange(i + 1, n as int));
            if str_equal(self.attrs[i].0.as_str(), name) {
                return Some(self.attrs[i].1.as_str());
            }
            i = i + 1;
        }
        None
    }
}

/// Copies `b[start..end]` into a new vector.
fn copy_range(b: &[u8], start: usize, end: usize) -> (v: Vec<u8>)
    requires
        start <= end <= b@.len(),
    ensures
        v@ == b@.subrange(start as int, end as int),
{
    let mut v: Vec<u8> = Vec::with_capacity(end - start);
    let mut i = start;
    while i < end
        invariant
            start <= i <= end <= b@.len(),
            v@ == b@.subrange(start as int, i as int),
        decreases end - i,
    {
        v.push(b[i]);
        i = i + 1;
    }
    v
}

proof fn lemma_local_part(name: Seq<u8>, i: int)
    requires
        0 <= i <= name.len(),
        i == 0 || name[i - 1] == 0x3a,
        forall|k: int| i <= k < name.len() ==> name[k] != 0x3a,
    ensures
        local_part(name) == name.subrange(i, name.len() as int),
    decreases name.len(),
{
    if name.len() > 0 {
        if name.last() == 0x3a {
            assert(i == name.len());
        } else {
            lemma_local_part(name.drop_last(), i);
            assert(name.drop_last().subrange(i, name.len() - 1).push(name.last()) =~= name.subrange(
                i,
                name.len() as int,
            ));
        }
    } else {
        assert(name.subrange(i, name.len() as int) =~= name);
    }
}

/// Strips a namespace prefix from a qualified name.
fn local(name: &[u8]) -> (v: Vec<u8>)
    ensures
        v@ == local_part(name@),
{
    let n = name.len();
    let mut i = n;
    while i > 0 && name[i - 1] != 0x3a
        invariant
            i <= n == name@.len(),
            forall|k: int| i <= k < n ==> name@[k] != 0x3a,
        decreases i,
    {
        i = i - 1;
    }
    proof {
        lemma_local_part(name@, i as int);
    }
    copy_range(name, i, n)
}

/// Whether `pat` occurs in `s` at `i`.
fn occurs_at(s: &[u8], i: usize, pat: &[u8]) -> (r: bool)
    requires
        i <= s@.len(),
    ensures
        r == (pat@.len() <= s@.len() - i && s@.subrange(i as int, i + pat@.len()) == pat@),
{
    let n = pat.len();
    let sl = s.len();
    if n > sl - i {
        return false;
    }
    let mut k: usize = 0;
    while k < n
        invariant
            sl == s@.len(),
            n == pat@.len(),
            i <= s@.len(),
            n <= s@.len() - i,
            k <= n,
            forall|j: int| 0 <= j < k ==> s@[i + j] == pat@[j],
        decreases n - k,
    {
        assert(i + k < sl);
        if s[i + k] != pat[k] {
            assert(s@.subrange(i as int, i + n)[k as int] != pat@[k as int]);
            return false;
        }
        k = k + 1;
    }
    assert(s@.subrange(i as int, i + n) =~= pat@);
    true
}

/// `s` with every non-overlapping occurrence of `pat` replaced by `rep`.
fn replace_bytes(s: &[u8], pat: &[u8], rep: &[u8]) -> (out: Vec<u8>)
    requires
        pat@.len() > 0,
    ensures
        out@ == replace_all(s@, pat@, rep@),
{
    let n = s.len();
    let mut out: Vec<u8> = Vec::new();
    let mut i: usize = 0;
    assert(s@.subrange(0, n as int) =~= s@);
    while i < n
        invariant
            n == s@.len(),
            pat@.len() > 0,
            i <= n,
            out@ + replace_all(s@.subrange(i as int, n as int), pat@, rep@) == replace_all(
                s@,
                pat@,
                rep@,
            ),
        decreases n - i,
    {
        let ghost rest = s@.subrange(i as int, n as int);
        let ghost before = out@;
        if occurs_at(s, i, pat) {
            let plen = pat.len();
            assert(rest.subrange(0, pat@.len() as int) =~= s@.subrange(i as int, i + pat@.len()));
            assert(rest.subrange(pat@.len() as int, rest.len() as int) =~= s@.subrange(
                i + plen,
                n as int,
            ));
            let mut k: usize = 0;
            while k < rep.len()
                invariant
                    k <= rep@.len(),
                    out@ == before + rep@.subrange(0, k as int),
                decreases rep@.len() - k,
            {
                out.push(rep[k]);
                k = k + 1;
            }
            assert(rep@.subrange(0, rep@.len() as int) =~= rep@);
            assert(replace_all(rest, pat@, rep@) == rep@ + replace_all(
                s@.subrange(i + plen, n as int),
                pat@,
                rep@,
            ));
            assert(out@ + replace_all(s@.subrange(i + plen, n as int), pat@, rep@) =~= before + (
            rep@ + replace_all(s@.subrange(i + plen, n as int), pat@, rep@)));
            i = i + plen;
        } else {
            assert(rest.drop_first() =~= s@.subrange(i + 1, n as int));
            assert(rest[0] == s@[i as int]);
            assert(!(0 < pat@.len() <= rest.len() && rest.subrange(0, pat@.len() as int) == pat@))
                by {
                if 0 < pat@.len() <= rest.len() {
                    assert(rest.subrange(0, pat@.len() as int) =~= s@.subrange(
                        i as int,
                        i + pat@.len(),
                    ));
                }
            }
            assert(replace_all(rest, pat@, rep@) == seq![s@[i as int]] + replace_all(
                s@.subrange(i + 1, n as int),
                pat@,
                rep@,
            ));
            out.push(s[i]);
            assert(out@ + replace_all(s@.subrange(i + 1, n as int), pat@, rep@) =~= before + (seq![
                s@[i as int],
            ] + replace_all(s@.subrange(i + 1, n as int), pat@, rep@)));
            i = i + 1;
        }
    }
    assert(s@.subrange(n as int, n as int) =~= Seq::<u8>::empty());
    assert(out@ + Seq::<u8>::empty() =~= out@);
    out
}

/// Decodes the five XML predefined entities in token text.
fn unescape_bytes(s: &[u8]) -> (out: Vec<u8>)
    ensures
        out@ == unescape(s@),
{
    let lt: Vec<u8> = vec![0x26u8, 0x6cu8, 0x74u8, 0x3bu8];
    let gt: Vec<u8> = vec![0x26u8, 0x67u8, 0x74u8, 0x3bu8];
    let quot: Vec<u8> = vec![0x26u8, 0x71u8, 0x75u8, 0x6fu8, 0x74u8, 0x3bu8];
    let apos: Vec<u8> = vec![0x26u8, 0x61u8, 0x70u8, 0x6fu8, 0x73u8, 0x3bu8];
    let amp: Vec<u8> = vec![0x26u8, 0x61u8, 0x6du8, 0x70u8, 0x3bu8];
    let r_lt: Vec<u8> = vec![0x3cu8];
    let r_gt: Vec<u8> = vec![0x3eu8];
    let r_quot: Vec<u8> = vec![0x22u8];
    let r_apos: Vec<u8> = vec![0x27u8];
    let r_amp: Vec<u8> = vec![0x26u8];
    assert(lt@ == entity_lt());
    assert(gt@ == entity_gt());
    assert(quot@ == entity_quot());
    assert(apos@ == entity_apos());
    assert(amp@ == entity_amp());
    assert(r_lt@ == seq![0x3cu8]);
    assert(r_gt@ == seq![0x3eu8]);
    assert(r_quot@ == seq![0x22u8]);
    assert(r_apos@ == seq![0x27u8]);
    assert(r_amp@ == seq![0x26u8]);
    let s1 = replace_bytes(s, lt.as_slice(), r_lt.as_slice());
    let s2 = replace_bytes(s1.as_slice(), gt.as_slice(), r_gt.as_slice());
    let s3 = replace_bytes(s2.as_slice(), quot.as_slice(), r_quot.as_slice());
    let s4 = replace_bytes(s3.as_slice(), apos.as_slice(), r_apos.as_slice());
    replace_bytes(s4.as_slice(), amp.as_slice(), r_amp.as_slice())
}


fn is_xml_space_byte(c: u8) -> (r: bool)
    ensures
        r == is_xml_space(c),
{
    c == 0x20 || c == 0x09 || c == 0x0a || c == 0x0d
}

fn ends_name_byte(c: u8) -> (r: bool)
    ensures
        r == ends_name(c),
{
    is_xml_space_byte(c) || c == 0x2f || c == 0x3e
}

fn ends_attr_name_byte(c: u8) -> (r: bool)
    ensures
        r == ends_attr_name(c),
{
    c == 0x3d || ends_name_byte(c)
}

struct Parser<'a> {
    b: &'a [u8],
    pos: usize,
}

impl Parser<'_> {
    /// Scans forward to the next element start and parses it, skipping XML
    /// declarations (`<?…?>`) and comments/doctypes (`<!…>`).
    fn next_element(&mut self) -> (r: Option<MNode>)
        requires
            old(self).pos <= old(self).b@.len(),
            match scan_first_element(old(self).b@, old(self).pos as int) {
                Some(e) => !e.stuck,
                None => true,
            },
        ensures
            final(self).b == old(self).b,
            match (r, scan_first_element(old(self).b@, old(self).pos as int)) {
                (None, None) => true,
                (Some(n), Some(e)) => n.tree() == e.tree,
                _ => false,
            },
    {
        let ghost b = self.b@;
        let ghost target = scan_first_element(b, self.pos as int);
        let n = self.b.len();
        loop
            invariant
                n == b.len(),
                target == scan_first_element(old(self).b@, old(self).pos as int),
                self.b@ == b,
                self.b == old(self).b,
                self.pos <= b.len(),
                scan_first_element(b, self.pos as int) == target,
                match target {
                    Some(e) => !e.stuck,
                    None => true,
                },
            decreases b.len() - self.pos,
        {
            let ghost start = self.pos as int;
            proof {
                lemma_find_byte(b, start, 0x3c);
            }
            while self.pos < n && self.b[self.pos] != 0x3c
                invariant
                    n == b.len(),
                    self.b@ == b,
                    self.b == old(self).b,
                    start <= self.pos <= b.len(),
                    find_byte(b, start, 0x3c) == find_byte(b, self.pos as int, 0x3c),
                decreases b.len() - self.pos,
            {
                self.pos = self.pos + 1;
            }
            if self.pos >= self.b.len() {
                return None;
            }
            let at = self.pos;
            if at + 1 < self.b.len() && (self.b[at + 1] == 0x3f || self.b[at + 1] == 0x21) {
                proof {
                    lemma_past_gt(b, at as int);
                }
                self.skip_to_gt();
            } else {
                return self.parse_element();
            }
        }
    }

    /// Parses an element whose `<` is at `self.pos`.
    fn parse_element(&mut self) -> (r: Option<MNode>)
        requires
            old(self).pos < old(self).b@.len(),
            !scan_element(old(self).b@, old(self).pos as int).stuck,
        ensures
            final(self).b == old(self).b,
            final(self).pos == scan_element(old(self).b@, old(self).pos as int).end,
            old(self).pos < final(self).pos <= old(self).b@.len(),
            match r {
                Some(n) => n.tree() == scan_element(old(self).b@, old(self).pos as int).tree,
                None => false,
            },
        decreases old(self).b@.len() - old(self).pos,
    {
        let ghost b = self.b@;
        let ghost p0 = self.pos as int;
        let n = self.b.len();
        self.pos = self.pos + 1;
        proof {
            lemma_name_end(b, p0 + 1);
        }
        let name = self.read_name();
        proof {
            lemma_scan_attrs(b, self.pos as int);
        }
        let (attrs, self_closing) = self.read_attrs();
        let local_name = local(name.as_slice());
        let tag = string_from_utf8_lossy(local_name.as_slice());
        let mut node = MNode { tag, text: String::new(), children: Vec::new(), attrs };
        assert(node.tree().children =~= Seq::<MathTree>::empty());
        if self_closing {
            return Some(node);
        }
        let ghost content_start = self.pos as int;
        let ghost target = scan_content(b, content_start, Seq::empty(), Seq::empty());
        let mut text_bytes: Vec<u8> = Vec::new();
        loop
            invariant_except_break
                scan_content(b, self.pos as int, node.tree().children, text_bytes@) == target,
            invariant
                n == b.len(),
                b == old(self).b@,
                p0 == old(self).pos,
                self.b@ == b,
                self.b == old(self).b,
                p0 < self.pos <= b.len(),
                p0 < content_start,
                !target.stuck,
                node.tag@ == scan_element(b, p0).tree.tag,
                attrs_view(node.attrs@) == scan_element(b, p0).tree.attrs,
                target == scan_content(b, content_start, Seq::empty(), Seq::empty()),
                !scan_element(b, p0).stuck,
                !scan_attrs(b, name_end(b, p0 + 1)).self_closing,
                content_start == scan_attrs(b, name_end(b, p0 + 1)).end,
            ensures
                self.b@ == b,
                self.b == old(self).b,
                p0 < self.pos <= b.len(),
                self.pos == target.end,
                node.tree().children == target.children,
                text_bytes@ == target.text,
                node.tag@ == scan_element(b, p0).tree.tag,
                attrs_view(node.attrs@) == scan_element(b, p0).tree.attrs,
            decreases b.len() - self.pos,
        {
            let ghost p = self.pos as int;
            let ghost before_children = node.tree().children;
            let ghost before_text = text_bytes@;
            proof {
                lemma_find_byte(b, p, 0x3c);
            }
            let piece = self.read_text();
            let un = unescape_bytes(piece.as_slice());
            let mut un_mut = un;
            text_bytes.append(&mut un_mut);
            let ghost text2 = before_text + unescape(b.subrange(p, self.pos as int));
            assert(text_bytes@ =~= text2);
            if self.pos >= n {
                break;
            }
            let te = self.pos;
            if te + 1 < n && self.b[te + 1] == 0x2f {
                proof {
                    lemma_past_gt(b, te as int);
                }
                self.skip_to_gt();
                break;
            }
            assert(self.b@.len() - self.pos < old(self).b@.len() - old(self).pos);
            let child = self.parse_element();
            match child {
                Some(c) => {
                    let ghost ct = c.tree();
                    let ghost old_node = node;
                    node.children.push(c);
                    proof {
                        assert(node.tree().children =~= before_children.push(ct)) by {
                            assert(node.children@ == old_node.children@.push(c));
                            assert forall|k: int| 0 <= k < node.children@.len() implies
                                #[trigger] node.tree().children[k] == before_children.push(
                                ct,
                            )[k] by {
                                if k < old_node.children@.len() {
                                    assert(node.children@[k] == old_node.children@[k]);
                                    assert(old_node.tree().children[k]
                                        == old_node.children@[k].tree());
                                }
                            }
                        }
                        assert(node.tree().tag == old_node.tree().tag);
                    }
                },
                None => {
                    break;
                },
            }
        }
        node.text = string_from_utf8_lossy(text_bytes.as_slice());
        assert(node.tree().children == target.children);
        Some(node)
    }

    /// Reads an element name (until whitespace, `/`, or `>`).
    fn read_name(&mut self) -> (name: Vec<u8>)
        requires
            old(self).pos <= old(self).b@.len(),
        ensures
            final(self).b == old(self).b,
            final(self).pos == name_end(old(self).b@, old(self).pos as int),
            name@ == old(self).b@.subrange(old(self).pos as int, final(self).pos as int),
    {
        let ghost b = self.b@;
        let start = self.pos;
        while self.pos < self.b.len() && !ends_name_byte(self.b[self.pos])
            invariant
                self.b@ == b,
                self.b == old(self).b,
                start <= self.pos <= b.len(),
                name_end(b, start as int) == name_end(b, self.pos as int),
            decreases b.len() - self.pos,
        {
            self.pos = self.pos + 1;
        }
        copy_range(self.b, start, self.pos)
    }

    /// Reads attributes up to the end of the start tag, returning them as
    /// `(local name, unescaped value)` pairs plus `true` for a self-closing
    /// (`/>`) tag. A valueless attribute is recorded with an empty value.
    fn read_attrs(&mut self) -> (r: (Vec<(String, String)>, bool))
        requires
            old(self).pos <= old(self).b@.len(),
        ensures
            final(self).b == old(self).b,
            final(self).pos == scan_attrs(old(self).b@, old(self).pos as int).end,
            r.1 == scan_attrs(old(self).b@, old(self).pos as int).self_closing,
            attrs_view(r.0@) == decode_attrs(scan_attrs(old(self).b@, old(self).pos as int).attrs),
    {
        let ghost b = self.b@;
        let ghost target = scan_attrs(b, self.pos as int);
        let mut attrs: Vec<(String, String)> = Vec::new();
        let n = self.b.len();
        while self.pos < n
            invariant
                n == b.len(),
                target == scan_attrs(old(self).b@, old(self).pos as int),
                self.b@ == b,
                self.b == old(self).b,
                self.pos <= b.len(),
                scan_attrs(b, self.pos as int).self_closing == target.self_closing,
                scan_attrs(b, self.pos as int).end == target.end,
                decode_attrs(target.attrs) == attrs_view(attrs@) + decode_attrs(
                    scan_attrs(b, self.pos as int).attrs,
                ),
            decreases b.len() - self.pos,
        {
            let ghost p = self.pos as int;
            let ghost before = attrs@;
            let c = self.b[self.pos];
            if is_xml_space_byte(c) {
                self.pos = self.pos + 1;
            } else if c == 0x3e {
                self.pos = self.pos + 1;
                assert(decode_attrs(scan_attrs(b, p).attrs) =~= Seq::empty());
                assert(attrs_view(attrs@) + Seq::empty() =~= attrs_view(attrs@));
                return (attrs, false);
            } else if c == 0x2f && self.pos + 1 < n && self.b[self.pos + 1] == 0x3e {
                self.pos = self.pos + 2;
                assert(decode_attrs(scan_attrs(b, p).attrs) =~= Seq::empty());
                assert(attrs_view(attrs@) + Seq::empty() =~= attrs_view(attrs@));
                return (attrs, true);
            } else if c == 0x2f {
                self.pos = self.pos + 1;
            } else {
                proof {
                    lemma_attr_name_end(b, p);
                }
                let name = self.read_attr_name();
                let ne = self.pos;
                let value = if ne < self.b.len() && self.b[ne] == 0x3d {
                    self.pos = self.pos + 1;
                    proof {
                        lemma_attr_value(b, ne + 1);
                    }
                    self.read_attr_value()
                } else {
                    Vec::new()
                };
                let ghost rest = scan_attrs(b, self.pos as int);
                if name.len() > 0 {
                    let key = string_from_utf8_lossy(local(name.as_slice()).as_slice());
                    let val = string_from_utf8_lossy(unescape_bytes(value.as_slice()).as_slice());
                    attrs.push((key, val));
                    proof {
                        let raw = seq![(local_part(name@), unescape(value@))];
                        assert(decode_attrs(raw + rest.attrs) =~= decode_attrs(raw)
                            + decode_attrs(rest.attrs));
                        assert(attrs_view(attrs@) =~= attrs_view(before) + decode_attrs(raw));
                    }
                }
            }
        }
        assert(decode_attrs(scan_attrs(b, self.pos as int).attrs) =~= Seq::empty());
        assert(attrs_view(attrs@) + Seq::empty() =~= attrs_view(attrs@));
        (attrs, false)
    }

    /// Reads an attribute name (until `=`, whitespace, `/`, or `>`).
    fn read_attr_name(&mut self) -> (name: Vec<u8>)
        requires
            old(self).pos <= old(self).b@.len(),
        ensures
            final(self).b == old(self).b,
            final(self).pos == attr_name_end(old(self).b@, old(self).pos as int),
            name@ == old(self).b@.subrange(old(self).pos as int, final(self).pos as int),
    {
        let ghost b = self.b@;
        let start = self.pos;
        while self.pos < self.b.len() && !ends_attr_name_byte(self.b[self.pos])
            invariant
                self.b@ == b,
                self.b == old(self).b,
                start <= self.pos <= b.len(),
                attr_name_end(b, start as int) == attr_name_end(b, self.pos as int),
            decreases b.len() - self.pos,
        {
            self.pos = self.pos + 1;
        }
        copy_range(self.b, start, self.pos)
    }

    /// Reads a quoted attribute value (the `=` already consumed); an unquoted
    /// value reads to the next whitespace or tag end.
    fn read_attr_value(&mut self) -> (v: Vec<u8>)
        requires
            old(self).pos <= old(self).b@.len(),
        ensures
            final(self).b == old(self).b,
            (v@, final(self).pos as int) == attr_value(old(self).b@, old(self).pos as int),
    {
        let ghost b = self.b@;
        if self.pos < self.b.len() && (self.b[self.pos] == 0x22 || self.b[self.pos] == 0x27) {
            let q = self.b[self.pos];
            self.pos = self.pos + 1;
            let start = self.pos;
            while self.pos < self.b.len() && self.b[self.pos] != q
                invariant
                    self.b@ == b,
                    self.b == old(self).b,
                    start <= self.pos <= b.len(),
                    find_byte(b, start as int, q) == find_byte(b, self.pos as int, q),
                decreases b.len() - self.pos,
            {
                self.pos = self.pos + 1;
            }
            let v = copy_range(self.b, start, self.pos);
            if self.pos < self.b.len() {
                self.pos = self.pos + 1;
            }
            v
        } else {
            self.read_attr_name()
        }
    }

    /// Reads character data up to the next `<` (or end of input).
    fn read_text(&mut self) -> (t: Vec<u8>)
        requires
            old(self).pos <= old(self).b@.len(),
        ensures
            final(self).b == old(self).b,
            final(self).pos == find_byte(old(self).b@, old(self).pos as int, 0x3c),
            t@ == old(self).b@.subrange(old(self).pos as int, final(self).pos as int),
    {
        let ghost b = self.b@;
        let start = self.pos;
        while self.pos < self.b.len() && self.b[self.pos] != 0x3c
            invariant
                self.b@ == b,
                self.b == old(self).b,
                start <= self.pos <= b.len(),
                find_byte(b, start as int, 0x3c) == find_byte(b, self.pos as int, 0x3c),
            decreases b.len() - self.pos,
        {
            self.pos = self.pos + 1;
        }
        copy_range(self.b, start, self.pos)
    }

    /// Skips to just past the next `>`.
    fn skip_to_gt(&mut self)
        requires
            old(self).pos <= old(self).b@.len(),
        ensures
            final(self).b == old(self).b,
            final(self).pos == past_gt(old(self).b@, old(self).pos as int),
    {
        let ghost b = self.b@;
        let start = self.pos;
        while self.pos < self.b.len() && self.b[self.pos] != 0x3e
            invariant
                self.b@ == b,
                self.b == old(self).b,
                start <= self.pos <= b.len(),
                find_byte(b, start as int, 0x3e) == find_byte(b, self.pos as int, 0x3e),
            decreases b.len() - self.pos,
        {
            self.pos = self.pos + 1;
        }
        if self.pos < self.b.len() {
            self.pos = self.pos + 1;
        }
    }
}

/// Parses a MathML string, returning the first element (the `<math>` root), or
/// `None` if there is no element.
pub fn parse_mathml(s: &str) -> (r: Option<MNode>)
    ensures
        match (r, mathml_tree(s.spec_bytes())) {
            (None, None) => true,
            (Some(n), Some(t)) => n.tree() == t,
            _ => false,
        },
{
    let mut p = Parser { b: s.as_bytes(), pos: 0 };
    proof {
        lemma_scan_first_element_progresses(s.spec_bytes(), 0);
    }
    p.next_element()
}

} // verus!
