//! Finding the style span that governs a byte offset or a run's range.
//!
//! A paragraph's style spans are byte ranges over its text; lookups take the
//! first span in order that qualifies.
use vstd::prelude::*;

verus! {

/// Span `r` (start inclusive, end exclusive) holds byte `offset`.
pub open spec fn holds_offset(r: (usize, usize), offset: usize) -> bool {
    r.0 <= offset < r.1
}

/// Span `r` covers the whole range `start..end`.
pub open spec fn covers_range(r: (usize, usize), start: usize, end: usize) -> bool {
    r.0 <= start && r.1 >= end
}

/// Index of the first span holding byte `offset`.
pub fn span_at_offset(spans: &[(usize, usize)], offset: usize) -> (r: Option<usize>)
    ensures
        r is None <==> forall|i: int|
            0 <= i < spans@.len() ==> !#[trigger] holds_offset(spans@[i], offset),
        r matches Some(k) ==> k < spans@.len() && holds_offset(spans@[k as int], offset)
            && forall|i: int| 0 <= i < k ==> !#[trigger] holds_offset(spans@[i], offset),
{
    let mut i: usize = 0;
    while i < spans.len()
        invariant
            i <= spans@.len(),
            forall|j: int| 0 <= j < i ==> !#[trigger] holds_offset(spans@[j], offset),
        decreases spans@.len() - i,
    {
        if spans[i].0 <= offset && offset < spans[i].1 {
            assert(holds_offset(spans@[i as int], offset));
            return Some(i);
        }
        i = i + 1;
    }
    None
}

/// Index of the first span covering the whole range `start..end`.
pub fn span_covering_range(spans: &[(usize, usize)], start: usize, end: usize) -> (r: Option<
    usize,
>)
    ensures
        r is None <==> forall|i: int|
            0 <= i < spans@.len() ==> !#[trigger] covers_range(spans@[i], start, end),
        r matches Some(k) ==> k < spans@.len() && covers_range(spans@[k as int], start, end)
            && forall|i: int| 0 <= i < k ==> !#[trigger] covers_range(spans@[i], start, end),
{
    let mut i: usize = 0;
    while i < spans.len()
        invariant
            i <= spans@.len(),
            forall|j: int| 0 <= j < i ==> !#[trigger] covers_range(spans@[j], start, end),
        decreases spans@.len() - i,
    {
        if spans[i].0 <= start && spans[i].1 >= end {
            assert(covers_range(spans@[i as int], start, end));
            return Some(i);
        }
        i = i + 1;
    }
    None
}

} // verus!
