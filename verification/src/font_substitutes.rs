//! The metric-compatible substitutes for proprietary font families.
//!
//! When a requested family is not available, a family with the same metrics
//! keeps line breaks and pagination where the document's author saw them.
use vstd::prelude::*;
use crate::chars::chars_of;

verus! {

/// The lowercase form of `s`, as `str::to_lowercase` computes it.
pub uninterp spec fn lowercased(s: Seq<char>) -> Seq<char>;

/// `str::to_lowercase`. The contract names the result and claims only that
/// it depends on the text alone; the Unicode case mappings themselves are
/// left to std.
#[verifier::external_body]
pub(crate) fn to_lowercase(s: &str) -> (r: String)
    ensures
        r@ == lowercased(s@),
{
    s.to_lowercase()
}

/// The substitute family for a lowercased family name, if the table has one.
pub open spec fn substitute_for(lower: Seq<char>) -> Option<Seq<char>> {
    if lower == "arial"@ {
        Some("Arimo"@)
    } else if lower == "courier"@ {
        Some("Courier Prime"@)
    } else if lower == "courier new"@ {
        Some("Cousine"@)
    } else if lower == "times new roman"@ {
        Some("Tinos"@)
    } else if lower == "calibri"@ || lower == "calibri light"@ {
        Some("Carlito"@)
    } else if lower == "cambria"@ || lower == "cambria math"@ {
        Some("Caladea"@)
    } else if lower == "georgia"@ {
        Some("Gelasio"@)
    } else {
        None
    }
}

/// Whether two character vectors are equal.
fn same_chars(a: &Vec<char>, b: &str) -> (r: bool)
    ensures
        r == (a@ == b@),
{
    let bc = chars_of(b);
    if a.len() != bc.len() {
        return false;
    }
    let mut i: usize = 0;
    while i < a.len()
        invariant
            a@.len() == bc@.len(),
            bc@ == b@,
            i <= a@.len(),
            forall|j: int| 0 <= j < i ==> a@[j] == bc@[j],
        decreases a@.len() - i,
    {
        if a[i] != bc[i] {
            return false;
        }
        i = i + 1;
    }
    assert(a@ =~= bc@);
    true
}

/// The metric-compatible substitute for family `name`, matched
/// case-insensitively.
pub fn standard_substitute(name: &str) -> (r: Option<&'static str>)
    ensures
        match (r, substitute_for(lowercased(name@))) {
            (Some(s), Some(t)) => s@ == t,
            (None, None) => true,
            _ => false,
        },
{
    let lower = to_lowercase(name);
    let l = chars_of(lower.as_str());
    if same_chars(&l, "arial") {
        Some("Arimo")
    } else if same_chars(&l, "courier") {
        Some("Courier Prime")
    } else if same_chars(&l, "courier new") {
        Some("Cousine")
    } else if same_chars(&l, "times new roman") {
        Some("Tinos")
    } else if same_chars(&l, "calibri") || same_chars(&l, "calibri light") {
        Some("Carlito")
    } else if same_chars(&l, "cambria") || same_chars(&l, "cambria math") {
        Some("Caladea")
    } else if same_chars(&l, "georgia") {
        Some("Gelasio")
    } else {
        None
    }
}

} // verus!
