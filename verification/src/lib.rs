//! Renderer-agnostic layout logic for the Loki suite, verified with Verus.
//!
//! This crate holds the integer and text logic of the layout engine: the
//! paragraph shaping cache, the decisions of incremental paginated relayout,
//! text cleaning and the byte-index maps between original and cleaned
//! paragraph text, widow/orphan and blank-page pagination rules, drop caps,
//! list-marker and note-mark formatting, the MathML scanner behind the math
//! typesetter, the ordering of the font picker's family list, and small
//! lookups and parsers around them.

pub mod chars;
pub mod drop_cap;
pub mod font_families;
pub mod font_substitutes;
pub mod hatch;
pub mod incremental;
pub mod incremental_diff;
pub mod items;
pub mod list_marker;
pub mod math_parse;
pub mod math_text;
pub mod measure;
pub mod note_scan;
pub mod notes;
pub mod options;
pub mod paginate_blanks;
pub mod para_cache;
pub mod para_cache_bytes;
pub mod para_clean;
pub mod para_index_map;
pub mod para_lines;
pub mod para_types;
pub mod roman;
pub mod span_lookup;
pub mod textbox_color;
pub mod widow_orphan;

pub use list_marker::{
    BulletChar, ListLevel, ListLevelKind, NumberingScheme, alpha_label, format_counter,
    format_list_marker, format_numbered_label, ordinal_suffix, roman_numeral,
};
pub use math_parse::{MNode, parse_mathml};
pub use para_index_map::ByteIndexMap;
pub use hatch::HatchPattern;
pub use items::{BorderStyle, DecorationKind, DecorationStyle, GlyphSynthesis};
pub use incremental::{PageStart, PaginatedReuse};
pub use options::{FieldContext, RevisionDisplay};
pub use para_types::{
    Affinity, FontVariant, HitTestResult, StrikethroughStyle, UnderlineStyle, VerticalAlign,
    underline_deco_style,
};
