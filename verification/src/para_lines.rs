//! Line-end lookup for editor navigation over a shaped paragraph.
//!
//! The shaper reports each line as a byte range of the cleaned text; the
//! byte-index maps translate editor offsets into that space and back.
use vstd::prelude::*;
use vstd::string::StringSliceAdditionalSpecFns;
use crate::para_index_map::{ByteIndexMap, clamped_lookup};

verus! {

/// `offset` lies in line `r` (start inclusive, end exclusive).
pub open spec fn line_holds(r: (usize, usize), offset: int) -> bool {
    r.0 <= offset < r.1
}

/// The line a cleaned offset falls on: the first whose range holds it, or
/// the last line when none does, or `None` for a paragraph without lines.
pub open spec fn line_for(lines: Seq<(usize, usize)>, offset: int) -> Option<int> {
    if exists|i: int| 0 <= i < lines.len() && line_holds(lines[i], offset) {
        Some(
            choose|i: int|
                0 <= i < lines.len() && line_holds(lines[i], offset) && forall|j: int|
                    0 <= j < i ==> !#[trigger] line_holds(lines[j], offset),
        )
    } else if lines.len() > 0 {
        Some(lines.len() - 1)
    } else {
        None
    }
}

/// `end` with one trailing `\n`, then one trailing `\r`, stepped over.
pub open spec fn trim_line_break(bytes: Seq<u8>, end: int) -> int {
    let t = if 0 < end <= bytes.len() && bytes[end - 1] == 0x0A {
        end - 1
    } else {
        end
    };
    if 0 < t <= bytes.len() && bytes[t - 1] == 0x0D {
        t - 1
    } else {
        t
    }
}

/// Byte offset, in the original text, of the end of the line holding
/// `byte_offset`, before any trailing line break; `None` without a shaped
/// layout (`lines` absent) or without lines.
pub fn line_end_offset(
    orig_to_clean: &ByteIndexMap,
    clean_to_orig: &ByteIndexMap,
    lines: Option<&[(usize, usize)]>,
    byte_offset: usize,
    text: &str,
) -> (r: Option<usize>)
    ensures
        lines is None ==> r is None,
        lines matches Some(ls) ==> {
            let clean = clamped_lookup(orig_to_clean.entries(), byte_offset as int);
            match line_for(ls@, clean) {
                None => r is None,
                Some(i) => r == Some(
                    trim_line_break(
                        text.spec_bytes(),
                        clamped_lookup(clean_to_orig.entries(), ls@[i].1 as int),
                    ) as usize,
                ),
            }
        },
{
    let ls = match lines {
        Some(ls) => ls,
        None => {
            return None;
        },
    };
    let clean = orig_to_clean.get_clamped(byte_offset);
    let mut i: usize = 0;
    let mut found: Option<usize> = None;
    while i < ls.len()
        invariant_except_break
            i <= ls@.len(),
            found is None,
            forall|j: int| 0 <= j < i ==> !#[trigger] line_holds(ls@[j], clean as int),
        ensures
            found matches Some(k) ==> k < ls@.len() && line_holds(ls@[k as int], clean as int)
                && forall|j: int| 0 <= j < k ==> !#[trigger] line_holds(ls@[j], clean as int),
            found is None ==> forall|j: int|
                0 <= j < ls@.len() ==> !#[trigger] line_holds(ls@[j], clean as int),
        decreases ls@.len() - i,
    {
        if ls[i].0 <= clean && clean < ls[i].1 {
            assert(line_holds(ls@[i as int], clean as int));
            found = Some(i);
            break;
        }
        i = i + 1;
    }
    let line = match found {
        Some(k) => {
            proof {
                let c = choose|m: int|
                    0 <= m < ls@.len() && line_holds(ls@[m], clean as int) && forall|j: int|
                        0 <= j < m ==> !#[trigger] line_holds(ls@[j], clean as int);
                assert(line_holds(ls@[k as int], clean as int));
                if c < k {
                    assert(!line_holds(ls@[c], clean as int));
                } else if k < c {
                    assert(!line_holds(ls@[k as int], clean as int));
                }
            }
            k
        },
        None => {
            if ls.len() == 0 {
                return None;
            }
            ls.len() - 1
        },
    };
    let end = ls[line].1;
    let mapped = clean_to_orig.get_clamped(end);
    let bytes = text.as_bytes();
    let mut trimmed = mapped;
    if trimmed > 0 && trimmed <= bytes.len() && bytes[trimmed - 1] == 0x0A {
        trimmed = trimmed - 1;
    }
    if trimmed > 0 && trimmed <= bytes.len() && bytes[trimmed - 1] == 0x0D {
        trimmed = trimmed - 1;
    }
    Some(trimmed)
}

} // verus!
