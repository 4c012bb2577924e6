//! Character-style and hit-testing types of paragraph layout.

use vstd::prelude::*;
use crate::items::DecorationStyle;

verus! {

/// Vertical text position for superscript / subscript runs.
///
/// ODF `style:text-position`; OOXML `w:vertAlign`.
#[derive(Debug, Clone, Copy, PartialEq, Eq)]
pub enum VerticalAlign {
    /// Text raised above the baseline (superscript).
    Superscript,
    /// Text lowered below the baseline (subscript).
    Subscript,
}

/// Caps variant for a text run.
///
/// ODF `fo:font-variant` / `fo:text-transform`; OOXML `w:smallCaps` / `w:caps`.
#[derive(Debug, Clone, Copy, PartialEq, Eq)]
pub enum FontVariant {
    /// Render lowercase letters as small capitals.
    SmallCaps,
    /// All characters uppercased (text transform applied at build time).
    AllCaps,
}

/// Underline decoration style, mirroring the document-model enum.
///
/// ODF `style:text-underline-style`; OOXML `w:u`.
#[derive(Debug, Clone, Copy, PartialEq, Eq)]
pub enum UnderlineStyle {
    /// A single solid underline.
    Single,
    /// A double underline.
    Double,
    /// A dotted underline.
    Dotted,
    /// A dashed underline.
    Dash,
    /// A wavy underline.
    Wave,
    /// A thick solid underline.
    Thick,
}

/// Strikethrough decoration style, mirroring the document-model enum.
///
/// ODF `style:text-line-through-style`; OOXML `w:strike` / `w:dstrike`.
#[derive(Debug, Clone, Copy, PartialEq, Eq)]
pub enum StrikethroughStyle {
    /// A single strikethrough line.
    Single,
    /// A double strikethrough line.
    Double,
}

/// Cursor affinity — which side of a character cluster a cursor sits on.
#[derive(Debug, Clone, Copy, PartialEq, Eq)]
pub enum Affinity {
    /// The cursor sits on the upstream (trailing) edge of the cluster.
    Upstream,
    /// The cursor sits on the downstream (leading) edge of the cluster.
    Downstream,
}

/// Result of a hit test against a paragraph.
///
/// All positions are in paragraph-local coordinates.
#[derive(Debug, Clone, Copy)]
pub struct HitTestResult {
    /// Byte offset into the paragraph's text content.
    pub byte_offset: usize,
    /// Whether the hit falls on the leading or trailing edge of the glyph cluster.
    pub affinity: Affinity,
    /// Zero-based index of the line containing the hit point.
    pub line_index: usize,
}

/// The stroke a `w:u` underline variant is drawn with.
pub open spec fn underline_stroke(u: UnderlineStyle) -> DecorationStyle {
    match u {
        UnderlineStyle::Single => DecorationStyle::Solid,
        UnderlineStyle::Double => DecorationStyle::Double,
        UnderlineStyle::Dotted => DecorationStyle::Dotted,
        UnderlineStyle::Dash => DecorationStyle::Dashed,
        UnderlineStyle::Wave => DecorationStyle::Wave,
        UnderlineStyle::Thick => DecorationStyle::Thick,
    }
}

/// The decoration stroke for an underline variant: the shaper supplies the
/// underline's geometry but not its `w:u` variant, which is recovered here.
pub fn underline_deco_style(u: UnderlineStyle) -> (d: DecorationStyle)
    ensures
        d == underline_stroke(u),
{
    match u {
        UnderlineStyle::Single => DecorationStyle::Solid,
        UnderlineStyle::Double => DecorationStyle::Double,
        UnderlineStyle::Dotted => DecorationStyle::Dotted,
        UnderlineStyle::Dash => DecorationStyle::Dashed,
        UnderlineStyle::Wave => DecorationStyle::Wave,
        UnderlineStyle::Thick => DecorationStyle::Thick,
    }
}

} // verus!
