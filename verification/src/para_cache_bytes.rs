//! The retained-heap figure of a shaped paragraph's line layout, the
//! quantity the paragraph cache is bounded by.
//!
//! The shaper publishes no size accessor, so the figure is reconstructed from
//! the counts its API exposes exactly and the element sizes of its records.
use vstd::prelude::*;

verus! {

/// Bytes per shaped cluster: one per character of Latin prose.
pub const PARLEY_CLUSTER_BYTES: usize = 24;

/// Bytes per line record, including its metrics.
pub const PARLEY_LINE_BYTES: usize = 104;

/// Bytes per line item: one per style run per line.
pub const PARLEY_LINE_ITEM_BYTES: usize = 48;

/// Fixed cost of one retained layout and its small per-layout vectors.
pub const PARLEY_BASE_BYTES: usize = 296;

/// Retained bytes of a shaped layout with `clusters` clusters, `lines`
/// lines and `line_items` line items.
pub open spec fn layout_bytes_of(clusters: nat, lines: nat, line_items: nat) -> int {
    PARLEY_BASE_BYTES + clusters * PARLEY_CLUSTER_BYTES + lines * PARLEY_LINE_BYTES + line_items
        * PARLEY_LINE_ITEM_BYTES
}

/// Retained bytes of a shaped layout from its cluster, line and line-item
/// counts.
pub fn parley_bytes(clusters: usize, lines: usize, line_items: usize) -> (n: usize)
    requires
        layout_bytes_of(clusters as nat, lines as nat, line_items as nat) <= usize::MAX,
    ensures
        n == layout_bytes_of(clusters as nat, lines as nat, line_items as nat),
{
    assert(lines * PARLEY_LINE_BYTES >= 0) by (nonlinear_arith);
    assert(line_items * PARLEY_LINE_ITEM_BYTES >= 0) by (nonlinear_arith);
    assert(clusters * PARLEY_CLUSTER_BYTES >= 0) by (nonlinear_arith);
    PARLEY_BASE_BYTES + clusters * PARLEY_CLUSTER_BYTES + lines * PARLEY_LINE_BYTES + line_items
        * PARLEY_LINE_ITEM_BYTES
}

} // verus!
