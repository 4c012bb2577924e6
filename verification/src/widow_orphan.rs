//! Widow and orphan control for paragraph pagination.
//!
//! When a paragraph splits across a page or column boundary, a lone line is
//! not stranded: an orphan is the paragraph's first line left at the bottom of
//! a page, a widow its last line carried alone to the top of the next. Given
//! the natural split line, [`resolve_split`] decides whether to pull lines
//! down (widow) or to defer the whole fragment to the next page (orphan).
use vstd::prelude::*;

verus! {

/// The split after widow control: when the tail carried to the next page
/// would be shorter than `widow_min` lines (but not empty), split earlier so
/// the tail keeps exactly `widow_min`, provided that split is not before the
/// fragment's first line.
pub open spec fn widow_split(total: nat, start_line: nat, k: nat, widow_min: nat) -> nat {
    let tail = if total > k + 1 {
        total - (k + 1)
    } else {
        0
    };
    let k_widow = if total > widow_min + 1 {
        total - (widow_min + 1)
    } else {
        0
    };
    if 1 <= tail < widow_min && k_widow >= start_line && k_widow < k {
        k_widow as nat
    } else {
        k
    }
}

/// Adjusts the natural split after line `natural_k` of a paragraph of
/// `total_lines` lines for widow and orphan control.
///
/// `start_line` is the first line of the current fragment (0 for the
/// paragraph's first fragment) and `mid_page` whether content stands above the
/// paragraph on this page. Returns `Some(k)` to split after line `k`, or
/// `None` to defer the whole fragment to the next page: orphan control, when a
/// paragraph's first fragment would leave fewer than `orphan_min` lines here.
pub fn resolve_split(
    total_lines: usize,
    start_line: usize,
    natural_k: usize,
    orphan_min: usize,
    widow_min: usize,
    mid_page: bool,
) -> (r: Option<usize>)
    requires
        total_lines > 0 ==> natural_k < usize::MAX,
        total_lines > natural_k + 1 ==> widow_min < usize::MAX,
    ensures
        total_lines == 0 ==> r == Some(natural_k),
        total_lines > 0 ==> r == ({
            let k = widow_split(
                total_lines as nat,
                start_line as nat,
                natural_k as nat,
                widow_min as nat,
            );
            if start_line == 0 && mid_page && k + 1 < orphan_min {
                None::<usize>
            } else {
                Some(k as usize)
            }
        }),
        // The split never moves later than the natural one.
        r matches Some(k) ==> k <= natural_k,
        // A paragraph already at a page top is never deferred.
        !mid_page ==> r is Some,
        // With both controls off the natural split stands.
        orphan_min == 0 && widow_min == 0 ==> r == Some(natural_k),
        // A split first fragment keeps at least `orphan_min` lines here.
        r matches Some(k) ==> (total_lines > 0 && start_line == 0 && mid_page ==> k + 1
            >= orphan_min),
        // A split is never moved before the fragment's first line.
        r matches Some(k) ==> (k < natural_k ==> k >= start_line),
        // A split moved earlier leaves `widow_min` lines for the tail, or every
        // line but the first when the paragraph is too short for that.
        r matches Some(k) ==> (k < natural_k ==> total_lines - (k + 1) == if widow_min + 1
            <= total_lines {
            widow_min as int
        } else {
            total_lines - 1
        }),
{
    let total = total_lines;
    if total == 0 {
        return Some(natural_k);
    }
    let mut k = natural_k;
    let next_count = total.saturating_sub(k + 1);
    if next_count >= 1 && next_count < widow_min {
        let k_widow = total.saturating_sub(widow_min + 1);
        if k_widow >= start_line {
            if k_widow < k {
                k = k_widow;
            }
        }
    }
    if start_line == 0 && mid_page {
        let cur_count = k + 1 - start_line;
        if cur_count < orphan_min {
            return None;
        }
    }
    Some(k)
}

} // verus!
