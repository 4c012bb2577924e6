//! Hatch-shading patterns for `w:shd` line/cross textures.

use vstd::prelude::*;

verus! {

/// The geometry of a hatch pattern (renderer-agnostic mirror of the
/// document-model hatch pattern, so positioned items stay free of
/// document-model types).
#[non_exhaustive]
#[derive(Debug, Clone, Copy, PartialEq, Eq)]
pub enum HatchPattern {
    /// Horizontal lines.
    Horizontal,
    /// Vertical lines.
    Vertical,
    /// `/` diagonal lines.
    DiagUp,
    /// `\` diagonal lines.
    DiagDown,
    /// Horizontal + vertical grid.
    Cross,
    /// Both diagonals (an `X` grid).
    DiagCross,
}

} // verus!
