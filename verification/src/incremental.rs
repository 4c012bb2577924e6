//! The decisions of incremental paginated relayout.
//!
//! A full paginated layout records a [`PageStart`] at every clean page top.
//! After an edit, the driver reuses the unchanged prefix of pages, re-flows
//! from the changed block, and splices the unchanged suffix back once the flow
//! state resynchronises. Shaping and flowing pages is done elsewhere; this
//! module decides everything around it: whether a relayout may be attempted,
//! which section changed, where to resume, whether a resumed page top
//! resynchronises with an old one, which pages are reused, how many pages the
//! result has, and which checkpoints it carries.
//!
//! A driver takes three steps around the flow: [`begin_relayout`] decides
//! whether to relayout and which section, [`plan_section`] diffs its blocks
//! and plans the resume point, and [`finish_relayout`] decides the reused
//! suffix and the page count once the section was re-flowed.
//!
//! A checkpoint's flow state is a type parameter `C`; equality of two flow
//! states is its `==`.
use vstd::prelude::*;
use vstd::std_specs::cmp::PartialEqSpec;
use crate::incremental_diff::{
    blocks_equal_from, common_prefix_len, common_suffix_len, counted, equal_from_comparisons,
    is_common_prefix_len, is_common_suffix_len, min_len, same, scan_comparisons,
};

verus! {

/// A clean-page-top checkpoint: which page started, in which section, at
/// which section-local block, and the flow state needed to resume there.
#[derive(Debug, Clone)]
pub struct PageStart<C> {
    pub page_index: usize,
    pub section_index: usize,
    pub block_index: usize,
    pub checkpoint: C,
}

/// Reuse metadata produced alongside a paginated layout.
#[derive(Debug, Clone)]
pub struct PaginatedReuse<C> {
    /// Clean-page-top checkpoints across all sections, in page order.
    pub checkpoints: Vec<PageStart<C>>,
    /// Whether the document contains any footnote or endnote.
    pub has_footnotes: bool,
    /// How many pages the relayout re-flowed rather than reused.
    pub reflowed_pages: usize,
}

/// Which sections of an edited document differ from the previous one.
#[derive(Debug, Clone, Copy, PartialEq, Eq)]
pub enum SectionChange {
    /// No section differs.
    Unchanged,
    /// Exactly this section differs, and its page layout does not.
    One(usize),
    /// More than one section differs, or the page layout of one does.
    Restructured,
}

/// `b` is a copy of `a`: the same indices and a clone of its flow state.
pub open spec fn copies<C: Clone>(a: PageStart<C>, b: PageStart<C>) -> bool {
    &&& b.page_index == a.page_index
    &&& b.section_index == a.section_index
    &&& b.block_index == a.block_index
    &&& cloned(a.checkpoint, b.checkpoint)
}

/// The checkpoint that starts section `section` (its block 0).
pub open spec fn starts_section<C>(cp: PageStart<C>, section: usize) -> bool {
    cp.section_index == section && cp.block_index == 0
}

/// A checkpoint in section `section` at or before block `block`.
pub open spec fn resumable_at<C>(cp: PageStart<C>, section: usize, block: usize) -> bool {
    cp.section_index == section && cp.block_index <= block
}

/// A checkpoint of section `section` at block `block` whose flow state equals
/// `state`.
pub open spec fn resyncs_with<C: PartialEq>(
    cp: PageStart<C>,
    section: usize,
    block: usize,
    state: C,
) -> bool {
    cp.section_index == section && cp.block_index == block && cp.checkpoint.eq_spec(&state)
}

/// A relayout is attempted only while editing, with no notes in the previous
/// document, with at least one checkpoint, and with the section count
/// unchanged.
pub fn incremental_eligible(
    preserve_for_editing: bool,
    has_footnotes: bool,
    checkpoint_count: usize,
    section_count: usize,
    prev_section_count: usize,
) -> (r: bool)
    ensures
        r == (preserve_for_editing && !has_footnotes && checkpoint_count > 0 && section_count
            == prev_section_count),
{
    !(!preserve_for_editing || has_footnotes || checkpoint_count == 0 || section_count
        != prev_section_count)
}

/// Classifies the edit from, per section, whether it differs and whether its
/// page layout differs (the latter consulted only where the former holds).
pub fn changed_section(section_differs: &[bool], layout_differs: &[bool]) -> (r: SectionChange)
    requires
        section_differs@.len() == layout_differs@.len(),
    ensures
        r is Unchanged <==> forall|i: int|
            0 <= i < section_differs@.len() ==> !#[trigger] section_differs@[i],
        r matches SectionChange::One(k) ==> {
            &&& k < section_differs@.len()
            &&& section_differs@[k as int]
            &&& !layout_differs@[k as int]
            &&& forall|i: int|
                0 <= i < section_differs@.len() && i != k ==> !#[trigger] section_differs@[i]
        },
        (exists|k: int|
            0 <= k < section_differs@.len() && section_differs@[k] && !layout_differs@[k]
                && forall|i: int|
                0 <= i < section_differs@.len() && i != k ==> !#[trigger] section_differs@[i])
            ==> r is One,
{
    let mut changed: Option<usize> = None;
    let mut i: usize = 0;
    while i < section_differs.len()
        invariant
            section_differs@.len() == layout_differs@.len(),
            i <= section_differs@.len(),
            changed is None ==> forall|j: int| 0 <= j < i ==> !#[trigger] section_differs@[j],
            changed matches Some(k) ==> {
                &&& k < i
                &&& section_differs@[k as int]
                &&& !layout_differs@[k as int]
                &&& forall|j: int| 0 <= j < i && j != k ==> !#[trigger] section_differs@[j]
            },
        decreases section_differs@.len() - i,
    {
        if section_differs[i] {
            if changed.is_some() || layout_differs[i] {
                return SectionChange::Restructured;
            }
            changed = Some(i);
        }
        i = i + 1;
    }
    match changed {
        Some(k) => SectionChange::One(k),
        None => SectionChange::Unchanged,
    }
}

/// Global page index where `section` begins: that of its first block-0
/// checkpoint.
pub fn section_page_start<C>(checkpoints: &[PageStart<C>], section: usize) -> (r: Option<usize>)
    ensures
        r is None <==> forall|i: int|
            0 <= i < checkpoints@.len() ==> !#[trigger] starts_section(checkpoints@[i], section),
        r matches Some(p) ==> exists|i: int|
            0 <= i < checkpoints@.len() && starts_section(checkpoints@[i], section)
                && checkpoints@[i].page_index == p && forall|j: int|
                0 <= j < i ==> !#[trigger] starts_section(checkpoints@[j], section),
{
    let mut i: usize = 0;
    while i < checkpoints.len()
        invariant
            i <= checkpoints@.len(),
            forall|j: int| 0 <= j < i ==> !#[trigger] starts_section(checkpoints@[j], section),
        decreases checkpoints@.len() - i,
    {
        if checkpoints[i].section_index == section && checkpoints[i].block_index == 0 {
            assert(starts_section(checkpoints@[i as int], section));
            return Some(checkpoints[i].page_index);
        }
        i = i + 1;
    }
    None
}

/// Index of the last checkpoint of section `section` at or before block
/// `block`: the page top a relayout resumes from.
pub fn resume_checkpoint<C>(checkpoints: &[PageStart<C>], section: usize, block: usize) -> (r:
    Option<usize>)
    ensures
        r is None <==> forall|i: int|
            0 <= i < checkpoints@.len() ==> !#[trigger] resumable_at(
                checkpoints@[i],
                section,
                block,
            ),
        r matches Some(k) ==> {
            &&& k < checkpoints@.len()
            &&& resumable_at(checkpoints@[k as int], section, block)
            &&& forall|j: int|
                k < j < checkpoints@.len() ==> !#[trigger] resumable_at(
                    checkpoints@[j],
                    section,
                    block,
                )
        },
{
    let mut i: usize = checkpoints.len();
    while i > 0
        invariant
            i <= checkpoints@.len(),
            forall|j: int|
                i <= j < checkpoints@.len() ==> !#[trigger] resumable_at(
                    checkpoints@[j],
                    section,
                    block,
                ),
        decreases i,
    {
        let k = i - 1;
        if checkpoints[k].section_index == section && checkpoints[k].block_index <= block {
            assert(resumable_at(checkpoints@[k as int], section, block));
            return Some(k);
        }
        i = k;
    }
    None
}

/// Number of leading checkpoints that fall on pages before `page`: those of
/// the reused prefix.
pub fn checkpoints_before<C>(checkpoints: &[PageStart<C>], page: usize) -> (n: usize)
    ensures
        is_prefix_run(checkpoints@, page, n as nat),
        n == prefix_run(checkpoints@, page),
{
    let mut n: usize = 0;
    while n < checkpoints.len() && checkpoints[n].page_index < page
        invariant
            n <= checkpoints@.len(),
            forall|j: int| 0 <= j < n ==> #[trigger] checkpoints@[j].page_index < page,
        decreases checkpoints@.len() - n,
    {
        n = n + 1;
    }
    proof {
        assert(is_prefix_run(checkpoints@, page, n as nat));
        let m = prefix_run(checkpoints@, page);
        if m < n {
            assert(checkpoints@[m as int].page_index < page);
        } else if m > n {
            assert(checkpoints@[n as int].page_index < page);
        }
    }
    n
}

/// Whether a resumed flow reaching block `block` of section `section` with
/// flow state `state` resynchronises with the previous layout, and if so the
/// old page it lines up with: resync needs equal block counts, an old
/// checkpoint at that block with an equal flow state (the first such), and
/// every block from there on unchanged.
pub fn resync_page<C: PartialEq, T: PartialEq>(
    checkpoints: &[PageStart<C>],
    section: usize,
    block: usize,
    state: &C,
    allow_resync: bool,
    prev_blocks: &[T],
    next_blocks: &[T],
    counter: &mut u64,
) -> (r: Option<usize>)
    ensures
        !allow_resync ==> r is None && *final(counter) == *old(counter),
        allow_resync && C::obeys_eq_spec() && T::obeys_eq_spec() ==> {
            &&& (forall|i: int|
                0 <= i < checkpoints@.len() ==> !#[trigger] resyncs_with(
                    checkpoints@[i],
                    section,
                    block,
                    *state,
                )) ==> r is None && *final(counter) == *old(counter)
            &&& forall|i: int|
                0 <= i < checkpoints@.len() && resyncs_with(checkpoints@[i], section, block, *state)
                    && (forall|j: int|
                    0 <= j < i ==> !#[trigger] resyncs_with(
                        checkpoints@[j],
                        section,
                        block,
                        *state,
                    )) ==> {
                    &&& r is Some <==> (prev_blocks@.len() == next_blocks@.len() && forall|m: int|
                        block <= m < prev_blocks@.len() ==> #[trigger] same(
                            prev_blocks@,
                            m,
                            next_blocks@,
                            m,
                        ))
                    &&& r matches Some(p) ==> p == checkpoints@[i].page_index
                    &&& *final(counter) == counted(
                        *old(counter),
                        equal_from_comparisons(prev_blocks@, next_blocks@, block as int),
                    )
                }
        },
{
    if !allow_resync {
        return None;
    }
    let mut i: usize = 0;
    while i < checkpoints.len()
        invariant
            allow_resync,
            i <= checkpoints@.len(),
            *counter == *old(counter),
            C::obeys_eq_spec() ==> forall|j: int|
                0 <= j < i ==> !#[trigger] resyncs_with(checkpoints@[j], section, block, *state),
        decreases checkpoints@.len() - i,
    {
        if checkpoints[i].section_index == section && checkpoints[i].block_index == block
            && checkpoints[i].checkpoint == *state {
            proof {
                if C::obeys_eq_spec() {
                    assert(resyncs_with(checkpoints@[i as int], section, block, *state));
                }
            }
            if blocks_equal_from(prev_blocks, next_blocks, block, counter) {
                return Some(checkpoints[i].page_index);
            }
            return None;
        }
        i = i + 1;
    }
    None
}

/// Where a relayout of one edited section resumes, and what it compares
/// against.
#[derive(Debug, Clone, Copy, PartialEq, Eq)]
pub struct ResumePlan {
    /// Old page index where the edited section begins.
    pub section_start: usize,
    /// Old page index where the next section begins (the old page count for
    /// the last section).
    pub section_old_end: usize,
    /// Whether the edited section is the document's last.
    pub is_last_section: bool,
    /// Index of the checkpoint the flow resumes from.
    pub resume_index: usize,
    /// Number of old pages reused verbatim before the resume point.
    pub prefix_pages: usize,
    /// Whether a resumed page top may resynchronise with an old one: only
    /// when the section kept its block count, so block indices line up.
    pub allow_resync: bool,
}

/// The first page index of `section`, if any checkpoint starts it.
pub open spec fn section_start_page<C>(checkpoints: Seq<PageStart<C>>, section: usize) -> Option<
    usize,
> {
    if exists|i: int| 0 <= i < checkpoints.len() && starts_section(checkpoints[i], section) {
        let i = choose|i: int|
            0 <= i < checkpoints.len() && starts_section(checkpoints[i], section) && forall|j: int|
                0 <= j < i ==> !#[trigger] starts_section(checkpoints[j], section);
        Some(checkpoints[i].page_index)
    } else {
        None
    }
}

/// The old layout offers no point to resume section `section` from: no
/// checkpoint starts the section, or none lies at or before block
/// `first_changed`.
pub open spec fn no_resume_point<C>(checkpoints: Seq<PageStart<C>>, section: usize, first_changed: usize) -> bool {
    section_start_page(checkpoints, section) is None || forall|i: int|
        0 <= i < checkpoints.len() ==> !#[trigger] resumable_at(checkpoints[i], section, first_changed)
}

/// `p` is the plan for resuming section `section` at its first changed block
/// `first_changed`: the section's old page range, whether it is the last
/// section, the last checkpoint of the section at or before that block and
/// its page, and whether the block counts allow a resync.
pub open spec fn is_resume_plan<C>(
    checkpoints: Seq<PageStart<C>>,
    section: usize,
    first_changed: usize,
    section_count: usize,
    total_pages: usize,
    prev_block_count: usize,
    next_block_count: usize,
    p: ResumePlan,
) -> bool {
    &&& section_start_page(checkpoints, section) == Some(p.section_start)
    &&& p.section_old_end == match section_start_page(checkpoints, (section + 1) as usize) {
        Some(e) => e,
        None => total_pages,
    }
    &&& p.is_last_section == (section + 1 == section_count)
    &&& p.resume_index < checkpoints.len()
    &&& resumable_at(checkpoints[p.resume_index as int], section, first_changed)
    &&& forall|j: int|
        p.resume_index < j < checkpoints.len() ==> !#[trigger] resumable_at(
            checkpoints[j],
            section,
            first_changed,
        )
    &&& p.prefix_pages == checkpoints[p.resume_index as int].page_index
    &&& p.allow_resync == (prev_block_count == next_block_count)
}

/// Plans the resumption of section `section`, whose first changed block is
/// `first_changed`: `None` when the old layout has no checkpoint starting the
/// section or none at or before that block, in which case a full relayout
/// is needed.
pub fn plan_resume<C>(
    checkpoints: &[PageStart<C>],
    section: usize,
    first_changed: usize,
    section_count: usize,
    total_pages: usize,
    prev_block_count: usize,
    next_block_count: usize,
) -> (r: Option<ResumePlan>)
    requires
        section < usize::MAX,
    ensures
        r is None <==> no_resume_point(checkpoints@, section, first_changed),
        r matches Some(p) ==> is_resume_plan(
            checkpoints@,
            section,
            first_changed,
            section_count,
            total_pages,
            prev_block_count,
            next_block_count,
            p,
        ),
{
    let start = match section_page_start(checkpoints, section) {
        Some(s) => s,
        None => {
            proof {
                lemma_section_start_page(checkpoints@, section, None);
            }
            return None;
        },
    };
    proof {
        lemma_section_start_page(checkpoints@, section, Some(start));
    }
    let next = section_page_start(checkpoints, section + 1);
    proof {
        lemma_section_start_page(checkpoints@, (section + 1) as usize, next);
    }
    let old_end = match next {
        Some(e) => e,
        None => total_pages,
    };
    let k = match resume_checkpoint(checkpoints, section, first_changed) {
        Some(k) => k,
        None => {
            return None;
        },
    };
    Some(ResumePlan {
        section_start: start,
        section_old_end: old_end,
        is_last_section: section + 1 == section_count,
        resume_index: k,
        prefix_pages: checkpoints[k].page_index,
        allow_resync: prev_block_count == next_block_count,
    })
}

/// What [`section_page_start`] returns is [`section_start_page`].
proof fn lemma_section_start_page<C>(cps: Seq<PageStart<C>>, section: usize, r: Option<usize>)
    requires
        r is None <==> forall|i: int|
            0 <= i < cps.len() ==> !#[trigger] starts_section(cps[i], section),
        r matches Some(p) ==> exists|i: int|
            0 <= i < cps.len() && starts_section(cps[i], section) && cps[i].page_index == p
                && forall|j: int| 0 <= j < i ==> !#[trigger] starts_section(cps[j], section),
    ensures
        section_start_page(cps, section) == r,
{
    if let Some(p) = r {
        let i = choose|i: int|
            0 <= i < cps.len() && starts_section(cps[i], section) && cps[i].page_index == p
                && forall|j: int| 0 <= j < i ==> !#[trigger] starts_section(cps[j], section);
        let i2 = choose|i: int|
            0 <= i < cps.len() && starts_section(cps[i], section) && forall|j: int|
                0 <= j < i ==> !#[trigger] starts_section(cps[j], section);
        assert(starts_section(cps[i], section));
        if i2 < i {
            assert(!starts_section(cps[i2], section));
        } else if i < i2 {
            assert(!starts_section(cps[i], section));
        }
    }
}

/// Lifts the section-local page numbers of re-flowed pages to document-global
/// ones by adding the page on which their section starts (0 for a document
/// of one section). Reused pages keep their numbers and never pass here.
pub fn lift_page_numbers(numbers: &mut Vec<usize>, section_start: usize)
    requires
        forall|i: int| 0 <= i < old(numbers)@.len() ==> old(numbers)@[i] + section_start <= usize::MAX,
    ensures
        final(numbers)@.len() == old(numbers)@.len(),
        forall|i: int|
            0 <= i < old(numbers)@.len() ==> final(numbers)@[i] == old(numbers)@[i] + section_start,
{
    let n = numbers.len();
    let mut i: usize = 0;
    while i < n
        invariant
            n == old(numbers)@.len(),
            numbers@.len() == n,
            i <= n,
            forall|j: int| 0 <= j < i ==> numbers@[j] == old(numbers)@[j] + section_start,
            forall|j: int| i <= j < n ==> numbers@[j] == old(numbers)@[j],
            forall|j: int| 0 <= j < n ==> old(numbers)@[j] + section_start <= usize::MAX,
        decreases n - i,
    {
        let lifted: usize = numbers[i] + section_start;
        numbers.set(i, lifted);
        i = i + 1;
    }
}

/// Pages of the relayout: the old pages before the resume page, the
/// re-flowed ones, and, where a suffix from old page `s` is reused, the old
/// pages from `s` on.
pub fn assemble_pages<P: Clone>(
    prev_pages: &[P],
    prefix_pages: usize,
    middle: Vec<P>,
    suffix: Option<usize>,
) -> (r: Vec<P>)
    requires
        prefix_pages <= prev_pages@.len(),
        suffix matches Some(s) ==> s <= prev_pages@.len(),
    ensures
        ({
            let tail_len: int = match suffix {
                Some(s) => prev_pages@.len() - s,
                None => 0,
            };
            let start: int = match suffix {
                Some(s) => s as int,
                None => 0,
            };
            &&& r@.len() == prefix_pages + middle@.len() + tail_len
            &&& forall|j: int| 0 <= j < prefix_pages ==> cloned(prev_pages@[j], #[trigger] r@[j])
            &&& forall|j: int|
                0 <= j < middle@.len() ==> #[trigger] r@[prefix_pages + j] == middle@[j]
            &&& forall|j: int|
                0 <= j < tail_len ==> cloned(
                    prev_pages@[start + j],
                    #[trigger] r@[prefix_pages + middle@.len() + j],
                )
        }),
{
    let mut out: Vec<P> = Vec::new();
    let mut i: usize = 0;
    while i < prefix_pages
        invariant
            prefix_pages <= prev_pages@.len(),
            i <= prefix_pages,
            out@.len() == i,
            forall|j: int| 0 <= j < i ==> cloned(prev_pages@[j], #[trigger] out@[j]),
        decreases prefix_pages - i,
    {
        out.push(prev_pages[i].clone());
        i = i + 1;
    }
    let ghost middle_seq = middle@;
    for page in it: middle
        invariant
            it.seq() == middle_seq,
            out@.len() == prefix_pages + it.index(),
            forall|j: int| 0 <= j < prefix_pages ==> cloned(prev_pages@[j], #[trigger] out@[j]),
            forall|j: int| 0 <= j < it.index() ==> #[trigger] out@[prefix_pages + j] == middle_seq[j],
    {
        out.push(page);
    }
    match suffix {
        Some(s) => {
            let base: usize = out.len();
            let mut k: usize = s;
            while k < prev_pages.len()
                invariant
                    s <= k <= prev_pages@.len(),
                    base == prefix_pages + middle_seq.len(),
                    out@.len() == base + (k - s),
                    forall|j: int| 0 <= j < prefix_pages ==> cloned(prev_pages@[j], #[trigger] out@[j]),
                    forall|j: int|
                        0 <= j < middle_seq.len() ==> #[trigger] out@[prefix_pages + j]
                            == middle_seq[j],
                    forall|j: int|
                        0 <= j < k - s ==> cloned(prev_pages@[s + j], #[trigger] out@[base + j]),
                decreases prev_pages@.len() - k,
            {
                out.push(prev_pages[k].clone());
                k = k + 1;
            }
        },
        None => {},
    }
    out
}

/// The assembled pages number exactly the page total the relayout
/// announces: [`assemble_pages`] of a prefix, the re-flowed pages and a
/// reused suffix has [`new_page_total`] pages for the section end after the
/// re-flowed pages.
pub proof fn lemma_page_count_matches_total(
    prefix_pages: int,
    middle_pages: int,
    total_pages: int,
    suffix: Option<usize>,
    assembled_len: int,
    announced_total: int,
)
    requires
        0 <= prefix_pages,
        0 <= middle_pages,
        suffix matches Some(s) ==> s <= total_pages,
        assembled_len == prefix_pages + middle_pages + match suffix {
            Some(s) => total_pages - s,
            None => 0,
        },
        suffix is None ==> announced_total == prefix_pages + middle_pages,
        suffix matches Some(s) ==> announced_total == (prefix_pages + middle_pages) + (total_pages
            - s),
    ensures
        assembled_len == announced_total,
{
}

/// Where the reused suffix starts (see [`suffix_start`]).
pub open spec fn suffix_start_spec(
    splice_from: Option<usize>,
    section_new_end: usize,
    section_old_end: usize,
    is_last_section: bool,
) -> Option<Option<usize>> {
    match splice_from {
        Some(s) => Some(Some(s)),
        None => if section_new_end == section_old_end && !is_last_section {
            Some(Some(section_old_end))
        } else if is_last_section {
            Some(None)
        } else {
            None
        },
    }
}

/// Whether a section of `column_count` columns may be re-flowed from a page
/// top: a multi-column section is column-balanced by the full flow, so an
/// edit to one needs a full relayout.
pub open spec fn columns_allow_resume(column_count: Option<u32>) -> bool {
    match column_count {
        Some(c) => c < 2,
        None => true,
    }
}

/// Section `k` is the only one that differs, and its page layout does not.
pub open spec fn sole_change(section_differs: Seq<bool>, layout_differs: Seq<bool>, k: int) -> bool {
    &&& 0 <= k < section_differs.len()
    &&& section_differs[k]
    &&& !layout_differs[k]
    &&& forall|i: int| 0 <= i < section_differs.len() && i != k ==> !#[trigger] section_differs[i]
}

/// How a relayout begins.
#[derive(Debug, Clone, Copy, PartialEq, Eq)]
pub enum RelayoutStart {
    /// Run the full layout.
    Full,
    /// Nothing changed: reuse the previous layout verbatim.
    Verbatim,
    /// Re-flow this section.
    Section(usize),
}

/// The first step of a relayout: whether it may be attempted at all, and
/// which section it re-flows. Per section, the caller supplies whether it
/// differs from the previous document, whether its page layout does, and its
/// column count.
pub fn begin_relayout(
    preserve_for_editing: bool,
    has_footnotes: bool,
    checkpoint_count: usize,
    prev_section_count: usize,
    section_differs: &[bool],
    layout_differs: &[bool],
    section_columns: &[Option<u32>],
) -> (r: RelayoutStart)
    requires
        section_differs@.len() == layout_differs@.len(),
        section_differs@.len() == section_columns@.len(),
    ensures
        !(preserve_for_editing && !has_footnotes && checkpoint_count > 0 && section_differs@.len()
            == prev_section_count) ==> r == RelayoutStart::Full,
        preserve_for_editing && !has_footnotes && checkpoint_count > 0 && section_differs@.len()
            == prev_section_count ==> {
            &&& r == RelayoutStart::Verbatim <==> forall|i: int|
                0 <= i < section_differs@.len() ==> !#[trigger] section_differs@[i]
            &&& forall|k: int|
                r == RelayoutStart::Section(k as usize) && 0 <= k < section_differs@.len() <==> (
                sole_change(section_differs@, layout_differs@, k) && columns_allow_resume(
                    section_columns@[k],
                ))
            &&& r matches RelayoutStart::Section(k) ==> k < section_differs@.len()
        },
{
    if !incremental_eligible(
        preserve_for_editing,
        has_footnotes,
        checkpoint_count,
        section_differs.len(),
        prev_section_count,
    ) {
        return RelayoutStart::Full;
    }
    match changed_section(section_differs, layout_differs) {
        SectionChange::Unchanged => RelayoutStart::Verbatim,
        SectionChange::Restructured => {
            proof {
                assert forall|k: int| !sole_change(section_differs@, layout_differs@, k) by {}
            }
            RelayoutStart::Full
        },
        SectionChange::One(k) => {
            let allowed = match section_columns[k] {
                Some(c) => c < 2,
                None => true,
            };
            proof {
                assert(sole_change(section_differs@, layout_differs@, k as int));
                assert forall|j: int| sole_change(section_differs@, layout_differs@, j) implies j
                    == k by {
                    if j != k {
                        assert(!section_differs@[j]);
                    }
                }
            }
            if allowed {
                RelayoutStart::Section(k)
            } else {
                RelayoutStart::Full
            }
        },
    }
}

/// What to do with the one edited section.
#[derive(Debug, Clone, Copy, PartialEq, Eq)]
pub enum SectionDecision {
    /// Its blocks are unchanged: reuse the previous layout verbatim.
    Verbatim,
    /// Run the full layout.
    Full,
    /// Resume the flow as planned.
    Resume(ResumePlan),
}

/// The edited section's changed block range and what to do about it.
#[derive(Debug, Clone, Copy, PartialEq, Eq)]
pub struct SectionPlan {
    /// The first changed block (the common prefix's length).
    pub first_changed: usize,
    /// One past the last changed block of the new blocks (where their common
    /// suffix begins).
    pub changed_end: usize,
    pub decision: SectionDecision,
}

/// The second step of a relayout: diffs the edited section's old and new
/// blocks and plans where the flow resumes. Before resuming, the caller
/// falls back to a full layout when a note stands in the changed range.
pub fn plan_section<T: PartialEq, C>(
    prev_blocks: &[T],
    next_blocks: &[T],
    checkpoints: &[PageStart<C>],
    section: usize,
    section_count: usize,
    total_pages: usize,
    counter: &mut u64,
) -> (r: SectionPlan)
    requires
        section < usize::MAX,
    ensures
        r.first_changed <= r.changed_end <= next_blocks@.len(),
        r.first_changed <= prev_blocks@.len(),
        T::obeys_eq_spec() ==> is_common_prefix_len(
            prev_blocks@,
            next_blocks@,
            r.first_changed as nat,
        ),
        r.decision is Verbatim <==> (r.first_changed == prev_blocks@.len() && r.first_changed
            == next_blocks@.len()),
        r.decision is Verbatim ==> *final(counter) == counted(
            *old(counter),
            scan_comparisons(
                r.first_changed as nat,
                min_len(prev_blocks@.len(), next_blocks@.len()),
            ),
        ),
        !(r.decision is Verbatim) ==> {
            let suffix = (next_blocks@.len() - r.changed_end) as nat;
            &&& T::obeys_eq_spec() ==> is_common_suffix_len(
                prev_blocks@,
                next_blocks@,
                r.first_changed as nat,
                suffix,
            )
            &&& *final(counter) == counted(
                counted(
                    *old(counter),
                    scan_comparisons(
                        r.first_changed as nat,
                        min_len(prev_blocks@.len(), next_blocks@.len()),
                    ),
                ),
                scan_comparisons(
                    suffix,
                    (min_len(prev_blocks@.len(), next_blocks@.len()) - r.first_changed) as nat,
                ),
            )
            &&& r.decision is Full <==> no_resume_point(checkpoints@, section, r.first_changed)
            &&& r.decision matches SectionDecision::Resume(p) ==> is_resume_plan(
                checkpoints@,
                section,
                r.first_changed,
                section_count,
                total_pages,
                prev_blocks@.len() as usize,
                next_blocks@.len() as usize,
                p,
            )
        },
{
    let c = common_prefix_len(prev_blocks, next_blocks, counter);
    if c == prev_blocks.len() && c == next_blocks.len() {
        return SectionPlan { first_changed: c, changed_end: c, decision: SectionDecision::Verbatim };
    }
    let suffix = common_suffix_len(prev_blocks, next_blocks, c, counter);
    let changed_end = next_blocks.len() - suffix;
    let decision = match plan_resume(
        checkpoints,
        section,
        c,
        section_count,
        total_pages,
        prev_blocks.len(),
        next_blocks.len(),
    ) {
        Some(p) => SectionDecision::Resume(p),
        None => SectionDecision::Full,
    };
    SectionPlan { first_changed: c, changed_end, decision }
}

/// The new page count, for a suffix decision (see [`new_page_total`]).
pub open spec fn page_total(suffix: Option<usize>, section_new_end: int, total_pages: int) -> int {
    match suffix {
        Some(s) => section_new_end + (total_pages - s),
        None => section_new_end,
    }
}

/// The last step of a relayout, after the section was re-flowed into
/// `middle_pages` pages (resynchronising at old page `splice_from`, if it
/// did): which old pages are reused from where, and the new page count; or
/// `None` for a full layout, which is also needed when the page count
/// changed and a header or footer shows it (`any_page_fields`).
pub fn finish_relayout(
    splice_from: Option<usize>,
    plan: &ResumePlan,
    middle_pages: usize,
    total_pages: usize,
    any_page_fields: bool,
) -> (r: Option<(Option<usize>, usize)>)
    requires
        plan.prefix_pages + middle_pages <= usize::MAX,
        suffix_start_spec(
            splice_from,
            (plan.prefix_pages + middle_pages) as usize,
            plan.section_old_end,
            plan.is_last_section,
        ) matches Some(Some(s)) ==> s <= total_pages && plan.prefix_pages + middle_pages + (
        total_pages - s) <= usize::MAX,
    ensures
        ({
            let new_end = (plan.prefix_pages + middle_pages) as usize;
            let ss = suffix_start_spec(
                splice_from,
                new_end,
                plan.section_old_end,
                plan.is_last_section,
            );
            match ss {
                None => r is None,
                Some(suffix) => {
                    let n = page_total(suffix, new_end as int, total_pages as int);
                    if n != total_pages && any_page_fields {
                        r is None
                    } else {
                        r == Some((suffix, n as usize))
                    }
                },
            }
        }),
{
    let new_end = plan.prefix_pages + middle_pages;
    let suffix = match suffix_start(
        splice_from,
        new_end,
        plan.section_old_end,
        plan.is_last_section,
    ) {
        Some(s) => s,
        None => {
            return None;
        },
    };
    let n = new_page_total(suffix, new_end, total_pages);
    if n != total_pages && any_page_fields {
        return None;
    }
    Some((suffix, n))
}

/// First old page of the reused suffix, or `None` when the re-flowed section
/// is the last one and nothing after it is reused; the outer `None` means a
/// full relayout is needed. A resync reuses everything from the page it lined
/// up with; without one, later sections are reused only if the re-flowed
/// section kept its page count.
pub fn suffix_start(
    splice_from: Option<usize>,
    section_new_end: usize,
    section_old_end: usize,
    is_last_section: bool,
) -> (r: Option<Option<usize>>)
    ensures
        r == suffix_start_spec(splice_from, section_new_end, section_old_end, is_last_section),
{
    match splice_from {
        Some(splice) => Some(Some(splice)),
        None => {
            if section_new_end == section_old_end && !is_last_section {
                Some(Some(section_old_end))
            } else if is_last_section {
                Some(None)
            } else {
                None
            }
        },
    }
}

/// Page count of the relayout: the pages through the end of the re-flowed
/// section, plus the reused old pages from the suffix start on.
pub fn new_page_total(suffix: Option<usize>, section_new_end: usize, total_pages: usize) -> (n:
    usize)
    requires
        suffix matches Some(s) ==> s <= total_pages && section_new_end + (total_pages - s)
            <= usize::MAX,
    ensures
        suffix is None ==> n == section_new_end,
        suffix matches Some(s) ==> n == section_new_end + (total_pages - s),
{
    match suffix {
        Some(s) => section_new_end + (total_pages - s),
        None => section_new_end,
    }
}

/// A copy of `cp` with a cloned flow state.
pub fn copy_page_start<C: Clone>(cp: &PageStart<C>) -> (r: PageStart<C>)
    ensures
        copies(*cp, r),
{
    PageStart {
        page_index: cp.page_index,
        section_index: cp.section_index,
        block_index: cp.block_index,
        checkpoint: cp.checkpoint.clone(),
    }
}

/// A resumed checkpoint lifted into the document: its section-local page
/// index offset by the reused prefix, tagged with its section.
pub open spec fn lifted<C>(cp: PageStart<C>, prefix_pages: usize, section: usize) -> PageStart<C> {
    PageStart {
        page_index: (cp.page_index + prefix_pages) as usize,
        section_index: section,
        block_index: cp.block_index,
        checkpoint: cp.checkpoint,
    }
}

/// The old checkpoints on pages from `splice` on.
pub open spec fn from_page<C>(checkpoints: Seq<PageStart<C>>, splice: usize) -> Seq<PageStart<C>> {
    checkpoints.filter(|cp: PageStart<C>| cp.page_index >= splice)
}

/// `r` is the checkpoint list of a relayout: copies of the old checkpoints
/// before the resume page, then the resumed ones lifted into the document,
/// then, where a suffix from old page `s` is reused, copies of the old
/// checkpoints on pages from `s` on.
pub open spec fn assembled<C: Clone>(
    prev: Seq<PageStart<C>>,
    prefix_pages: usize,
    resumed: Seq<PageStart<C>>,
    section: usize,
    suffix: Option<usize>,
    r: Seq<PageStart<C>>,
) -> bool {
    let n = prefix_run(prev, prefix_pages);
    let tail = match suffix {
        Some(s) => from_page(prev, s),
        None => Seq::<PageStart<C>>::empty(),
    };
    &&& r.len() == n + resumed.len() + tail.len()
    &&& forall|j: int| 0 <= j < n ==> copies(prev[j], #[trigger] r[j])
    &&& forall|j: int|
        0 <= j < resumed.len() ==> #[trigger] r[n + j] == lifted(resumed[j], prefix_pages, section)
    &&& forall|j: int| 0 <= j < tail.len() ==> copies(tail[j], #[trigger] r[n + resumed.len() + j])
}

/// Checkpoints of the relayout: the old ones before the resume page, the
/// resumed ones lifted into the document, and, where a suffix is reused, the
/// old ones on its pages.
pub fn assemble_checkpoints<C: Clone>(
    prev: &[PageStart<C>],
    prefix_pages: usize,
    resumed: Vec<PageStart<C>>,
    section: usize,
    suffix: Option<usize>,
) -> (r: Vec<PageStart<C>>)
    requires
        forall|i: int|
            0 <= i < resumed@.len() ==> #[trigger] resumed@[i].page_index + prefix_pages
                <= usize::MAX,
    ensures
        assembled(prev@, prefix_pages, resumed@, section, suffix, r@),
{
    let n = checkpoints_before(prev, prefix_pages);
    let mut out: Vec<PageStart<C>> = Vec::new();
    let mut i: usize = 0;
    while i < n
        invariant
            n == prefix_run(prev@, prefix_pages),
            n <= prev@.len(),
            i <= n,
            out@.len() == i,
            forall|j: int| 0 <= j < i ==> copies(prev@[j], #[trigger] out@[j]),
        decreases n - i,
    {
        out.push(copy_page_start(&prev[i]));
        i = i + 1;
    }
    let ghost resumed_seq = resumed@;
    for cp in it: resumed
        invariant
            n == prefix_run(prev@, prefix_pages),
            n <= prev@.len(),
            it.seq() == resumed_seq,
            out@.len() == n + it.index(),
            forall|j: int| 0 <= j < n ==> copies(prev@[j], #[trigger] out@[j]),
            forall|j: int|
                0 <= j < it.index() ==> #[trigger] out@[n + j] == lifted(
                    resumed_seq[j],
                    prefix_pages,
                    section,
                ),
            forall|i: int|
                0 <= i < resumed_seq.len() ==> #[trigger] resumed_seq[i].page_index + prefix_pages
                    <= usize::MAX,
    {
        out.push(PageStart {
            page_index: cp.page_index + prefix_pages,
            section_index: section,
            block_index: cp.block_index,
            checkpoint: cp.checkpoint,
        });
    }
    let base: usize = out.len();
    match suffix {
        Some(s) => {
            let mut i: usize = 0;
            while i < prev.len()
                invariant
                    n == prefix_run(prev@, prefix_pages),
                    base == n + resumed_seq.len(),
                    i <= prev@.len(),
                    out@.len() == base + from_page(prev@.take(i as int), s).len(),
                    forall|j: int| 0 <= j < n ==> copies(prev@[j], #[trigger] out@[j]),
                    forall|j: int|
                        0 <= j < resumed_seq.len() ==> #[trigger] out@[n + j] == lifted(
                            resumed_seq[j],
                            prefix_pages,
                            section,
                        ),
                    forall|j: int|
                        0 <= j < from_page(prev@.take(i as int), s).len() ==> copies(
                            from_page(prev@.take(i as int), s)[j],
                            #[trigger] out@[base + j],
                        ),
                decreases prev@.len() - i,
            {
                proof {
                    reveal(Seq::filter);
                    assert(prev@.take(i + 1).drop_last() =~= prev@.take(i as int));
                }
                if prev[i].page_index >= s {
                    out.push(copy_page_start(&prev[i]));
                }
                i = i + 1;
            }
            proof {
                assert(prev@.take(prev@.len() as int) =~= prev@);
            }
        },
        None => {},
    }
    out
}

/// `n` is the length of the run of leading checkpoints on pages before
/// `page`.
pub open spec fn is_prefix_run<C>(checkpoints: Seq<PageStart<C>>, page: usize, n: nat) -> bool {
    &&& n <= checkpoints.len()
    &&& forall|j: int| 0 <= j < n ==> #[trigger] checkpoints[j].page_index < page
    &&& n < checkpoints.len() ==> checkpoints[n as int].page_index >= page
}

/// Length of the run of leading checkpoints on pages before `page`.
pub open spec fn prefix_run<C>(checkpoints: Seq<PageStart<C>>, page: usize) -> nat {
    choose|n: nat| is_prefix_run(checkpoints, page, n)
}

/// Reuse metadata for a relayout that reuses the previous layout verbatim:
/// the same checkpoints and note flag, and no re-flowed pages.
pub fn reuse_verbatim<C: Clone>(prev: &PaginatedReuse<C>) -> (r: PaginatedReuse<C>)
    ensures
        r.reflowed_pages == 0,
        r.has_footnotes == prev.has_footnotes,
        r.checkpoints@.len() == prev.checkpoints@.len(),
        forall|j: int|
            0 <= j < prev.checkpoints@.len() ==> copies(
                prev.checkpoints@[j],
                #[trigger] r.checkpoints@[j],
            ),
{
    let mut out: Vec<PageStart<C>> = Vec::new();
    let mut i: usize = 0;
    while i < prev.checkpoints.len()
        invariant
            i <= prev.checkpoints@.len(),
            out@.len() == i,
            forall|j: int| 0 <= j < i ==> copies(prev.checkpoints@[j], #[trigger] out@[j]),
        decreases prev.checkpoints@.len() - i,
    {
        out.push(copy_page_start(&prev.checkpoints[i]));
        i = i + 1;
    }
    PaginatedReuse { checkpoints: out, has_footnotes: prev.has_footnotes, reflowed_pages: 0 }
}

/// Page indices strictly increase along the list.
pub open spec fn pages_increasing<C>(cps: Seq<PageStart<C>>) -> bool {
    forall|i: int, j: int| 0 <= i < j < cps.len() ==> cps[i].page_index < cps[j].page_index
}

proof fn lemma_from_page_increasing<C>(cps: Seq<PageStart<C>>, s: usize)
    requires
        pages_increasing(cps),
    ensures
        pages_increasing(from_page(cps, s)),
        forall|j: int|
            0 <= j < from_page(cps, s).len() ==> #[trigger] from_page(cps, s)[j].page_index >= s,
    decreases cps.len(),
{
    reveal(Seq::filter);
    let pred = |cp: PageStart<C>| cp.page_index >= s;
    if cps.len() > 0 {
        let rest = cps.drop_last();
        lemma_from_page_increasing(rest, s);
        assert forall|j: int| 0 <= j < from_page(rest, s).len() implies #[trigger] from_page(
            rest,
            s,
        )[j].page_index < cps.last().page_index by {
            let e = from_page(rest, s)[j];
            assert(rest.filter(pred).contains(e));
            rest.lemma_filter_contains_rev(pred, e);
            let k = choose|k: int| 0 <= k < rest.len() && rest[k] == e;
            assert(cps[k] == e);
        }
    }
}

/// Every checkpoint list has a run of leading checkpoints before any page.
pub proof fn lemma_prefix_run_exists<C>(cps: Seq<PageStart<C>>, page: usize)
    ensures
        is_prefix_run(cps, page, prefix_run(cps, page)),
    decreases cps.len(),
{
    if cps.len() == 0 || cps[0].page_index >= page {
        assert(is_prefix_run(cps, page, 0));
    } else {
        let rest = cps.drop_first();
        lemma_prefix_run_exists(rest, page);
        let k = prefix_run(rest, page);
        assert(is_prefix_run(cps, page, k + 1)) by {
            assert forall|j: int| 0 <= j < k + 1 implies #[trigger] cps[j].page_index < page by {
                if j > 0 {
                    assert(cps[j] == rest[j - 1]);
                }
            }
            if k + 1 < cps.len() {
                assert(cps[k + 1int] == rest[k as int]);
            }
        }
    }
}

/// A relayout keeps the checkpoints in increasing page order: given old
/// checkpoints in increasing page order, resumed ones in increasing order on
/// the `middle_pages` re-flowed pages, and a reused suffix that starts right
/// after them, the assembled list is in increasing page order too.
pub proof fn lemma_assembled_pages_increasing<C: Clone>(
    prev: Seq<PageStart<C>>,
    prefix_pages: usize,
    resumed: Seq<PageStart<C>>,
    section: usize,
    suffix: Option<usize>,
    middle_pages: usize,
    r: Seq<PageStart<C>>,
)
    requires
        assembled(prev, prefix_pages, resumed, section, suffix, r),
        pages_increasing(prev),
        pages_increasing(resumed),
        forall|j: int| 0 <= j < resumed.len() ==> #[trigger] resumed[j].page_index < middle_pages,
        prefix_pages + middle_pages <= usize::MAX,
        suffix matches Some(s) ==> s == prefix_pages + middle_pages,
    ensures
        pages_increasing(r),
{
    let n = prefix_run(prev, prefix_pages);
    let m = resumed.len();
    let tail = match suffix {
        Some(s) => from_page(prev, s),
        None => Seq::<PageStart<C>>::empty(),
    };
    lemma_prefix_run_exists(prev, prefix_pages);
    match suffix {
        Some(s) => lemma_from_page_increasing(prev, s),
        None => {},
    }
    assert forall|i: int, j: int| 0 <= i < j < r.len() implies r[i].page_index
        < r[j].page_index by {
        if j < n {
            assert(copies(prev[i], r[i]) && copies(prev[j], r[j]));
        } else if j < n + m {
            let jj = j - n;
            assert(r[n + jj] == lifted(resumed[jj], prefix_pages, section));
            if i < n {
                assert(copies(prev[i], r[i]));
            } else {
                let ii = i - n;
                assert(r[n + ii] == lifted(resumed[ii], prefix_pages, section));
            }
        } else {
            assert(copies(tail[j - n - m], r[n + m + (j - n - m)]));
            if i < n {
                assert(copies(prev[i], r[i]));
            } else if i < n + m {
                let ii = i - n;
                assert(r[n + ii] == lifted(resumed[ii], prefix_pages, section));
            } else {
                assert(copies(tail[i - n - m], r[n + m + (i - n - m)]));
            }
        }
    }
}

/// The prefix and suffix scans of one diff never compare more than two
/// elements beyond the shorter list's length, wherever the edit falls.
pub proof fn lemma_diff_scan_cost(prefix: nat, suffix: nat, shorter: nat)
    requires
        prefix <= shorter,
        suffix <= shorter - prefix,
    ensures
        scan_comparisons(prefix, shorter) + scan_comparisons(suffix, (shorter - prefix) as nat)
            <= shorter + 2,
{
}

} // verus!
