//! Even/odd section-break blank-page insertion.
//!
//! An even-page or odd-page section break starts the section on the next even
//! or odd page. When the section would otherwise begin on the wrong parity, a
//! single blank filler page is inserted before it.
use vstd::prelude::*;

verus! {

/// How a section begins relative to the one before it.
#[derive(Debug, Clone, Copy, PartialEq, Eq)]
pub enum SectionStart {
    /// On the same page, right after the previous section.
    Continuous,
    /// On a new page.
    NewPage,
    /// On the next even-numbered page.
    EvenPage,
    /// On the next odd-numbered page.
    OddPage,
}

/// Whether a blank filler page must precede a section that starts with
/// `start`, given the count of pages already emitted. Page numbers are
/// 1-based, so the section would start on page `page_count + 1`; the
/// document's first section (`page_count == 0`) never gets a filler.
pub fn needs_blank_before(start: SectionStart, page_count: usize) -> (r: bool)
    requires
        page_count < usize::MAX,
    ensures
        r == (page_count > 0 && match start {
            SectionStart::EvenPage => (page_count + 1) % 2 == 1,
            SectionStart::OddPage => (page_count + 1) % 2 == 0,
            _ => false,
        }),
{
    if page_count == 0 {
        return false;
    }
    let next = page_count + 1;
    match start {
        SectionStart::EvenPage => next % 2 != 0,
        SectionStart::OddPage => next % 2 == 0,
        _ => false,
    }
}

/// With the filler inserted where [`needs_blank_before`] asks for one, an
/// even-page or odd-page section after the first starts on a page of the
/// parity it asks for.
pub proof fn lemma_filler_fixes_parity(start: SectionStart, page_count: usize)
    requires
        0 < page_count < usize::MAX,
        start == SectionStart::EvenPage || start == SectionStart::OddPage,
    ensures
        ({
            let needs = page_count > 0 && match start {
                SectionStart::EvenPage => (page_count + 1) % 2 == 1,
                SectionStart::OddPage => (page_count + 1) % 2 == 0,
                _ => false,
            };
            let first_page = if needs {
                page_count + 2
            } else {
                page_count + 1
            };
            start == SectionStart::EvenPage ==> first_page % 2 == 0
        }),
        ({
            let needs = page_count > 0 && match start {
                SectionStart::EvenPage => (page_count + 1) % 2 == 1,
                SectionStart::OddPage => (page_count + 1) % 2 == 0,
                _ => false,
            };
            let first_page = if needs {
                page_count + 2
            } else {
                page_count + 1
            };
            start == SectionStart::OddPage ==> first_page % 2 == 1
        }),
{
}

} // verus!
