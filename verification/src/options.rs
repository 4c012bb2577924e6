//! Layout-pipeline configuration: how tracked changes are displayed, and the
//! resolved page numbering used for field substitution.

use vstd::prelude::*;
use crate::list_marker::NumberingScheme;

verus! {

/// How tracked-change runs are rendered — a **non-destructive** view over the
/// document, mirroring Word's Review-tab "Show Markup" dropdown. Switching
/// modes never mutates the revision marks.
#[derive(Debug, Clone, Copy, PartialEq, Eq, Default)]
pub enum RevisionDisplay {
    /// Show insertions (underlined) and deletions (struck through) inline —
    /// Word's "All Markup". Default.
    #[default]
    AllMarkup,
    /// Show the document as if every change were **accepted**.
    Final,
    /// Show the document as if every change were **rejected**.
    Original,
}

/// Resolved page numbering for field substitution during layout.
#[derive(Debug, Clone, Copy, PartialEq, Eq)]
pub struct FieldContext {
    /// 1-based page number of the page being laid out (already offset by any
    /// section restart value).
    pub page_number: u32,
    /// Total page count of the document.
    pub page_count: u32,
    /// Display format for the PAGE field (OOXML `w:pgNumType @w:fmt`).
    /// `None` = decimal.
    pub number_format: Option<NumberingScheme>,
}

/// Which spell checker checks a run of text.
#[derive(Debug, Clone, Copy, PartialEq, Eq)]
pub enum CheckerChoice {
    /// The session's default checker.
    Default,
    /// The dictionary registered for this tag of the language's fallback
    /// chain (its index in the chain).
    Dictionary(usize),
    /// No checker: the run is left unchecked.
    Unchecked,
}

/// Picks the checker for a run: untagged text uses the default checker; a
/// tagged run uses the dictionary of the first tag of its fallback chain that
/// has one (`chain_registered[i]` says whether tag `i` does); an unmatched tag
/// falls back to the default only when no per-language dictionaries are
/// registered at all, and is otherwise left unchecked.
pub fn checker_choice(tagged: bool, chain_registered: &[bool], has_dictionaries: bool) -> (r:
    CheckerChoice)
    ensures
        !tagged ==> r == CheckerChoice::Default,
        tagged ==> match r {
            CheckerChoice::Dictionary(i) => i < chain_registered@.len() && chain_registered@[i as int]
                && forall|j: int| 0 <= j < i ==> !#[trigger] chain_registered@[j],
            CheckerChoice::Default => !has_dictionaries && forall|j: int|
                0 <= j < chain_registered@.len() ==> !#[trigger] chain_registered@[j],
            CheckerChoice::Unchecked => has_dictionaries && forall|j: int|
                0 <= j < chain_registered@.len() ==> !#[trigger] chain_registered@[j],
        },
{
    if !tagged {
        return CheckerChoice::Default;
    }
    let mut i: usize = 0;
    while i < chain_registered.len()
        invariant
            tagged,
            i <= chain_registered@.len(),
            forall|j: int| 0 <= j < i ==> !#[trigger] chain_registered@[j],
        decreases chain_registered@.len() - i,
    {
        if chain_registered[i] {
            return CheckerChoice::Dictionary(i);
        }
        i = i + 1;
    }
    if has_dictionaries {
        CheckerChoice::Unchecked
    } else {
        CheckerChoice::Default
    }
}

} // verus!
