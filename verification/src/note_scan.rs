//! Whether a document contains a footnote or endnote.
//!
//! Footnotes render at a section's end, so a note anywhere in an edited
//! region can renumber or repaginate the tail; incremental relayout is
//! disabled whenever one is present. The scan reads only the nesting of the
//! document tree, which the types below hold.
use vstd::prelude::*;

verus! {

/// An inline of a paragraph, as far as note detection reads it.
pub enum InlineNode {
    /// A footnote or endnote.
    Note,
    /// A formatting container (emphasis, link, span, styled run, …) and the
    /// inlines it wraps.
    Container(Vec<InlineNode>),
    /// Any other inline (text, space, break, image, …).
    Leaf,
}

/// A block of a document, as far as note detection reads it.
pub enum BlockNode {
    /// A paragraph, plain block or heading, by its inlines.
    Inlines(Vec<InlineNode>),
    /// A line block, by its lines.
    Lines(Vec<Vec<InlineNode>>),
    /// A block quote, division or figure, by its child blocks.
    Nested(Vec<BlockNode>),
    /// An ordered or bullet list, by its items' blocks.
    List(Vec<Vec<BlockNode>>),
    /// A table, by the blocks of each cell of each row (head, bodies and
    /// foot rows together).
    Table(Vec<Vec<Vec<BlockNode>>>),
    /// Any other block (rule, raw block, …).
    Leaf,
}

/// Whether inline `i` is, or wraps, a note.
pub open spec fn inline_holds_note(i: InlineNode) -> bool
    decreases i, 0nat,
{
    match i {
        InlineNode::Note => true,
        InlineNode::Container(c) => inlines_hold_note(c@),
        InlineNode::Leaf => false,
    }
}

/// Whether any inline of `s` is, or wraps, a note.
pub open spec fn inlines_hold_note(s: Seq<InlineNode>) -> bool
    decreases s, 1nat,
{
    if s.len() == 0 {
        false
    } else {
        inline_holds_note(s[0]) || inlines_hold_note(s.subrange(1, s.len() as int))
    }
}

/// Whether block `b` contains a note anywhere inside it.
pub open spec fn block_holds_note(b: BlockNode) -> bool
    decreases b, 0nat,
{
    match b {
        BlockNode::Inlines(i) => inlines_hold_note(i@),
        BlockNode::Lines(ls) => lines_hold_note(ls@),
        BlockNode::Nested(bs) => blocks_hold_note(bs@),
        BlockNode::List(items) => block_lists_hold_note(items@),
        BlockNode::Table(rows) => rows_hold_note(rows@),
        BlockNode::Leaf => false,
    }
}

/// Whether any block of `s` contains a note.
pub open spec fn blocks_hold_note(s: Seq<BlockNode>) -> bool
    decreases s, 1nat,
{
    if s.len() == 0 {
        false
    } else {
        block_holds_note(s[0]) || blocks_hold_note(s.subrange(1, s.len() as int))
    }
}

/// Whether any line of `s` holds a note.
pub open spec fn lines_hold_note(s: Seq<Vec<InlineNode>>) -> bool
    decreases s, 1nat,
{
    if s.len() == 0 {
        false
    } else {
        inlines_hold_note(s[0]@) || lines_hold_note(s.subrange(1, s.len() as int))
    }
}

/// Whether any block list of `s` (list items, table cells) holds a note.
pub open spec fn block_lists_hold_note(s: Seq<Vec<BlockNode>>) -> bool
    decreases s, 1nat,
{
    if s.len() == 0 {
        false
    } else {
        blocks_hold_note(s[0]@) || block_lists_hold_note(s.subrange(1, s.len() as int))
    }
}

/// Whether any cell of any table row of `s` holds a note.
pub open spec fn rows_hold_note(s: Seq<Vec<Vec<BlockNode>>>) -> bool
    decreases s, 1nat,
{
    if s.len() == 0 {
        false
    } else {
        block_lists_hold_note(s[0]@) || rows_hold_note(s.subrange(1, s.len() as int))
    }
}

/// `inlines_hold_note` is "some inline holds a note".
proof fn lemma_inlines_any(s: Seq<InlineNode>)
    ensures
        inlines_hold_note(s) <==> exists|k: int| 0 <= k < s.len() && #[trigger] inline_holds_note(s[k]),
    decreases s.len(),
{
    if s.len() > 0 {
        let t = s.subrange(1, s.len() as int);
        assert(inlines_hold_note(s) == (inline_holds_note(s[0]) || inlines_hold_note(t)));
        lemma_inlines_any(t);
        if inlines_hold_note(t) {
            let k = choose|k: int| 0 <= k < t.len() && #[trigger] inline_holds_note(t[k]);
            assert(inline_holds_note(s[k + 1]));
        }
        if exists|k: int| 0 <= k < s.len() && #[trigger] inline_holds_note(s[k]) {
            let k = choose|k: int| 0 <= k < s.len() && #[trigger] inline_holds_note(s[k]);
            if k > 0 {
                assert(inline_holds_note(t[k - 1]));
            }
        }
    }
}

/// `blocks_hold_note` is "some block holds a note".
proof fn lemma_blocks_any(s: Seq<BlockNode>)
    ensures
        blocks_hold_note(s) <==> exists|k: int| 0 <= k < s.len() && #[trigger] block_holds_note(s[k]),
    decreases s.len(),
{
    if s.len() > 0 {
        let t = s.subrange(1, s.len() as int);
        assert(blocks_hold_note(s) == (block_holds_note(s[0]) || blocks_hold_note(t)));
        lemma_blocks_any(t);
        if blocks_hold_note(t) {
            let k = choose|k: int| 0 <= k < t.len() && #[trigger] block_holds_note(t[k]);
            assert(block_holds_note(s[k + 1]));
        }
        if exists|k: int| 0 <= k < s.len() && #[trigger] block_holds_note(s[k]) {
            let k = choose|k: int| 0 <= k < s.len() && #[trigger] block_holds_note(s[k]);
            if k > 0 {
                assert(block_holds_note(t[k - 1]));
            }
        }
    }
}

/// `lines_hold_note` is "some line holds a note".
proof fn lemma_lines_any(s: Seq<Vec<InlineNode>>)
    ensures
        lines_hold_note(s) <==> exists|k: int|
            0 <= k < s.len() && #[trigger] inlines_hold_note(s[k]@),
    decreases s.len(),
{
    if s.len() > 0 {
        let t = s.subrange(1, s.len() as int);
        assert(lines_hold_note(s) == (inlines_hold_note(s[0]@) || lines_hold_note(t)));
        lemma_lines_any(t);
        if lines_hold_note(t) {
            let k = choose|k: int| 0 <= k < t.len() && #[trigger] inlines_hold_note(t[k]@);
            assert(inlines_hold_note(s[k + 1]@));
        }
        if exists|k: int| 0 <= k < s.len() && #[trigger] inlines_hold_note(s[k]@) {
            let k = choose|k: int| 0 <= k < s.len() && #[trigger] inlines_hold_note(s[k]@);
            if k > 0 {
                assert(inlines_hold_note(t[k - 1]@));
            }
        }
    }
}

/// `block_lists_hold_note` is "some block list holds a note".
proof fn lemma_block_lists_any(s: Seq<Vec<BlockNode>>)
    ensures
        block_lists_hold_note(s) <==> exists|k: int|
            0 <= k < s.len() && #[trigger] blocks_hold_note(s[k]@),
    decreases s.len(),
{
    if s.len() > 0 {
        let t = s.subrange(1, s.len() as int);
        assert(block_lists_hold_note(s) == (blocks_hold_note(s[0]@) || block_lists_hold_note(t)));
        lemma_block_lists_any(t);
        if block_lists_hold_note(t) {
            let k = choose|k: int| 0 <= k < t.len() && #[trigger] blocks_hold_note(t[k]@);
            assert(blocks_hold_note(s[k + 1]@));
        }
        if exists|k: int| 0 <= k < s.len() && #[trigger] blocks_hold_note(s[k]@) {
            let k = choose|k: int| 0 <= k < s.len() && #[trigger] blocks_hold_note(s[k]@);
            if k > 0 {
                assert(blocks_hold_note(t[k - 1]@));
            }
        }
    }
}

/// `rows_hold_note` is "some row holds a note".
proof fn lemma_rows_any(s: Seq<Vec<Vec<BlockNode>>>)
    ensures
        rows_hold_note(s) <==> exists|k: int|
            0 <= k < s.len() && #[trigger] block_lists_hold_note(s[k]@),
    decreases s.len(),
{
    if s.len() > 0 {
        let t = s.subrange(1, s.len() as int);
        assert(rows_hold_note(s) == (block_lists_hold_note(s[0]@) || rows_hold_note(t)));
        lemma_rows_any(t);
        if rows_hold_note(t) {
            let k = choose|k: int| 0 <= k < t.len() && #[trigger] block_lists_hold_note(t[k]@);
            assert(block_lists_hold_note(s[k + 1]@));
        }
        if exists|k: int| 0 <= k < s.len() && #[trigger] block_lists_hold_note(s[k]@) {
            let k = choose|k: int| 0 <= k < s.len() && #[trigger] block_lists_hold_note(s[k]@);
            if k > 0 {
                assert(block_lists_hold_note(t[k - 1]@));
            }
        }
    }
}

/// Whether any inline of `inlines`, recursively, is a note.
pub fn inlines_have_note(inlines: &Vec<InlineNode>) -> (r: bool)
    ensures
        r == inlines_hold_note(inlines@),
    decreases inlines,
{
    proof {
        lemma_inlines_any(inlines@);
    }
    let mut k: usize = 0;
    while k < inlines.len()
        invariant
            k <= inlines@.len(),
            forall|j: int| 0 <= j < k ==> !#[trigger] inline_holds_note(inlines@[j]),
        decreases inlines@.len() - k,
    {
        let found = match &inlines[k] {
            InlineNode::Note => true,
            InlineNode::Container(c) => {
                proof {
                    assert(decreases_to!(inlines => inlines@));
                    assert(decreases_to!(inlines@ => inlines@[k as int]));
                }
                inlines_have_note(c)
            },
            InlineNode::Leaf => false,
        };
        if found {
            proof {
                lemma_inlines_any(inlines@);
                assert(inline_holds_note(inlines@[k as int]));
            }
            return true;
        }
        k = k + 1;
    }
    proof {
        lemma_inlines_any(inlines@);
    }
    false
}

/// Whether `block`, recursively, contains a note.
pub fn block_has_note(block: &BlockNode) -> (r: bool)
    ensures
        r == block_holds_note(*block),
    decreases block,
{
    match block {
        BlockNode::Inlines(i) => inlines_have_note(i),
        BlockNode::Lines(ls) => {
            proof {
                lemma_lines_any(ls@);
            }
            let mut k: usize = 0;
            while k < ls.len()
                invariant
                    *block == BlockNode::Lines(*ls),
                    k <= ls@.len(),
                    forall|j: int| 0 <= j < k ==> !#[trigger] inlines_hold_note(ls@[j]@),
                decreases ls@.len() - k,
            {
                if inlines_have_note(&ls[k]) {
                    proof {
                        lemma_lines_any(ls@);
                        assert(inlines_hold_note(ls@[k as int]@));
                    }
                    return true;
                }
                k = k + 1;
            }
            proof {
                lemma_lines_any(ls@);
            }
            false
        },
        BlockNode::Nested(bs) => {
            proof {
                assert(decreases_to!(block => bs));
            }
            blocks_have_note(bs)
        },
        BlockNode::List(items) => {
            proof {
                lemma_block_lists_any(items@);
            }
            let mut k: usize = 0;
            while k < items.len()
                invariant
                    *block == BlockNode::List(*items),
                    k <= items@.len(),
                    forall|j: int| 0 <= j < k ==> !#[trigger] blocks_hold_note(items@[j]@),
                decreases items@.len() - k,
            {
                proof {
                    assert(decreases_to!(*block => (*block)->List_0));
                    assert(decreases_to!(*items => items@));
                    assert(decreases_to!(items@ => items@[k as int]));
                }
                if blocks_have_note(&items[k]) {
                    proof {
                        lemma_block_lists_any(items@);
                        assert(blocks_hold_note(items@[k as int]@));
                    }
                    return true;
                }
                k = k + 1;
            }
            proof {
                lemma_block_lists_any(items@);
            }
            false
        },
        BlockNode::Table(rows) => {
            proof {
                assert(decreases_to!(block => rows));
            }
            table_has_note(rows)
        },
        BlockNode::Leaf => false,
    }
}

/// Whether any block of `blocks`, recursively, contains a note.
pub fn blocks_have_note(blocks: &Vec<BlockNode>) -> (r: bool)
    ensures
        r == blocks_hold_note(blocks@),
    decreases blocks,
{
    proof {
        lemma_blocks_any(blocks@);
    }
    let mut k: usize = 0;
    while k < blocks.len()
        invariant
            k <= blocks@.len(),
            forall|j: int| 0 <= j < k ==> !#[trigger] block_holds_note(blocks@[j]),
        decreases blocks@.len() - k,
    {
        proof {
            assert(decreases_to!(blocks => blocks@));
            assert(decreases_to!(blocks@ => blocks@[k as int]));
        }
        if block_has_note(&blocks[k]) {
            proof {
                lemma_blocks_any(blocks@);
                assert(block_holds_note(blocks@[k as int]));
            }
            return true;
        }
        k = k + 1;
    }
    proof {
        lemma_blocks_any(blocks@);
    }
    false
}

/// Whether any cell of any row of a table, recursively, contains a note.
pub fn table_has_note(rows: &Vec<Vec<Vec<BlockNode>>>) -> (r: bool)
    ensures
        r == rows_hold_note(rows@),
    decreases rows,
{
    proof {
        lemma_rows_any(rows@);
    }
    let mut k: usize = 0;
    while k < rows.len()
        invariant
            k <= rows@.len(),
            forall|j: int| 0 <= j < k ==> !#[trigger] block_lists_hold_note(rows@[j]@),
        decreases rows@.len() - k,
    {
        let row = &rows[k];
        proof {
            lemma_block_lists_any(row@);
        }
        let mut c: usize = 0;
        while c < row.len()
            invariant
                k < rows@.len(),
                *row == rows@[k as int],
                c <= row@.len(),
                forall|j: int| 0 <= j < c ==> !#[trigger] blocks_hold_note(row@[j]@),
            decreases row@.len() - c,
        {
            proof {
                assert(decreases_to!(rows => rows@));
                assert(decreases_to!(rows@ => rows@[k as int]));
                assert(decreases_to!(rows@[k as int] => rows@[k as int]@));
                assert(decreases_to!(rows@[k as int]@ => rows@[k as int]@[c as int]));
            }
            if blocks_have_note(&row[c]) {
                proof {
                    lemma_block_lists_any(row@);
                    assert(blocks_hold_note(row@[c as int]@));
                    lemma_rows_any(rows@);
                    assert(block_lists_hold_note(rows@[k as int]@));
                }
                return true;
            }
            c = c + 1;
        }
        proof {
            lemma_block_lists_any(row@);
        }
        k = k + 1;
    }
    proof {
        lemma_rows_any(rows@);
    }
    false
}

/// Whether any block of any section (each section given by its blocks)
/// contains a note.
pub fn document_has_notes(sections: &Vec<Vec<BlockNode>>) -> (r: bool)
    ensures
        r == block_lists_hold_note(sections@),
{
    proof {
        lemma_block_lists_any(sections@);
    }
    let mut k: usize = 0;
    while k < sections.len()
        invariant
            k <= sections@.len(),
            forall|j: int| 0 <= j < k ==> !#[trigger] blocks_hold_note(sections@[j]@),
        decreases sections@.len() - k,
    {
        if blocks_have_note(&sections[k]) {
            proof {
                lemma_block_lists_any(sections@);
                assert(blocks_hold_note(sections@[k as int]@));
            }
            return true;
        }
        k = k + 1;
    }
    proof {
        lemma_block_lists_any(sections@);
    }
    false
}

/// Whether a note stands in the changed region of an edited section: the
/// blocks after its common prefix of `prefix` blocks and before its common
/// suffix of `suffix` blocks.
pub fn changed_region_has_note(blocks: &Vec<BlockNode>, prefix: usize, suffix: usize) -> (r: bool)
    requires
        prefix + suffix <= blocks@.len(),
    ensures
        r == exists|k: int|
            prefix <= k < blocks@.len() - suffix && #[trigger] block_holds_note(blocks@[k]),
{
    let end = blocks.len() - suffix;
    let mut k: usize = prefix;
    while k < end
        invariant
            end == blocks@.len() - suffix,
            prefix <= k <= end,
            forall|j: int| prefix <= j < k ==> !#[trigger] block_holds_note(blocks@[j]),
        decreases end - k,
    {
        if block_has_note(&blocks[k]) {
            return true;
        }
        k = k + 1;
    }
    false
}

} // verus!
