//! Style enums of the renderer-agnostic positioned draw items.

use vstd::prelude::*;

verus! {

/// The stroke pattern for a border edge.
#[non_exhaustive]
#[derive(Debug, Clone, Copy, PartialEq, Eq)]
pub enum BorderStyle {
    /// Continuous line.
    Solid,
    /// Evenly spaced dashes.
    Dashed,
    /// Evenly spaced dots.
    Dotted,
    /// Two parallel lines.
    Double,
}

/// How a decoration line is stroked. Orthogonal to [`DecorationKind`] (which
/// says *where* the line sits). Spelling squiggles are always
/// [`Self::Wave`].
#[non_exhaustive]
#[derive(Debug, Clone, Copy, PartialEq, Eq, Default)]
pub enum DecorationStyle {
    /// A single solid line (the default).
    #[default]
    Solid,
    /// Two parallel solid lines.
    Double,
    /// A row of dots.
    Dotted,
    /// A row of short dashes.
    Dashed,
    /// A sine-like wave (also used for spelling squiggles).
    Wave,
    /// A single line at roughly double thickness.
    Thick,
}

/// The kind of text decoration.
#[non_exhaustive]
#[derive(Debug, Clone, Copy, PartialEq, Eq)]
pub enum DecorationKind {
    /// Line drawn below the text baseline.
    Underline,
    /// Line drawn through the middle of the text.
    Strikethrough,
    /// Line drawn above the text.
    Overline,
    /// Wavy line drawn below the text to mark a spelling error.
    Spelling,
}

/// Font synthesis flags applied when the requested style is not available.
#[derive(Debug, Clone, Copy, Default)]
pub struct GlyphSynthesis {
    /// Bold synthesis is active.
    pub bold: bool,
    /// Italic synthesis is active.
    pub italic: bool,
}

} // verus!
