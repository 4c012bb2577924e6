//! The block-list prefix/suffix diff that locates the changed range of an
//! edited section, and the count of element comparisons it performs.
//!
//! Element equality is whatever `==` the block type has; where that `==`
//! obeys its specification (`PartialEqSpec`), the contracts below pin every
//! result down exactly. The comparison count is exact either way.
use vstd::prelude::*;
use vstd::std_specs::cmp::PartialEqSpec;

verus! {

/// The counter after `n` more comparisons: a wrapping 64-bit add, as the
/// atomic add it stands for wraps.
pub open spec fn counted(counter: u64, n: nat) -> u64 {
    ((counter as nat + n) % 0x1_0000_0000_0000_0000nat) as u64
}

/// Adds `n` element comparisons to `counter`.
pub fn note_comparisons(counter: &mut u64, n: usize)
    ensures
        *final(counter) == counted(*old(counter), n as nat),
{
    let add: u64 = n as u64;
    *counter = counter.wrapping_add(add);
}

/// A length mismatch means the slices cannot be equal and no element
/// comparison is performed.
fn true_if_never() -> (r: bool)
    ensures
        !r,
{
    false
}

/// `a[i]` and `b[j]` are equal under the element type's `==`.
pub open spec fn same<T: PartialEq>(a: Seq<T>, i: int, b: Seq<T>, j: int) -> bool {
    a[i].eq_spec(&b[j])
}

/// Smaller of two lengths.
pub open spec fn min_len(a: nat, b: nat) -> nat {
    if a <= b {
        a
    } else {
        b
    }
}

/// `n` is the length of the longest common prefix of `a` and `b`.
pub open spec fn is_common_prefix_len<T: PartialEq>(a: Seq<T>, b: Seq<T>, n: nat) -> bool {
    &&& n <= min_len(a.len(), b.len())
    &&& forall|i: int| 0 <= i < n ==> #[trigger] same(a, i, b, i)
    &&& n < min_len(a.len(), b.len()) ==> !same(a, n as int, b, n as int)
}

/// `n` is the length of the longest common suffix of `a` and `b` that does not
/// reach into their first `prefix` elements.
pub open spec fn is_common_suffix_len<T: PartialEq>(
    a: Seq<T>,
    b: Seq<T>,
    prefix: nat,
    n: nat,
) -> bool {
    let max = min_len(a.len(), b.len()) - prefix;
    &&& n <= max
    &&& forall|i: int| 0 <= i < n ==> #[trigger] same(a, a.len() - 1 - i, b, b.len() - 1 - i)
    &&& n < max ==> !same(a, a.len() - 1 - n, b, b.len() - 1 - n)
}

/// Comparisons a scan of at most `max` elements makes when it stops after a
/// run of `n` equal ones: one more than the run, unless it ran out.
pub open spec fn scan_comparisons(n: nat, max: nat) -> nat {
    if n < max {
        n + 1
    } else {
        n
    }
}

/// Length of the longest common prefix of `prev` and `next`, that is the index
/// of the first differing element; works across length changes.
pub fn common_prefix_len<T: PartialEq>(prev: &[T], next: &[T], counter: &mut u64) -> (n: usize)
    ensures
        n <= min_len(prev@.len(), next@.len()),
        T::obeys_eq_spec() ==> is_common_prefix_len(prev@, next@, n as nat),
        *final(counter) == counted(
            *old(counter),
            scan_comparisons(n as nat, min_len(prev@.len(), next@.len())),
        ),
{
    let max: usize = if prev.len() <= next.len() {
        prev.len()
    } else {
        next.len()
    };
    let mut n: usize = 0;
    while n < max && prev[n] == next[n]
        invariant
            max == min_len(prev@.len(), next@.len()),
            n <= max,
            T::obeys_eq_spec() ==> forall|i: int| 0 <= i < n ==> #[trigger] same(prev@, i, next@, i),
        decreases max - n,
    {
        n = n + 1;
    }
    let count: usize = if n < max {
        n + 1
    } else {
        n
    };
    note_comparisons(counter, count);
    n
}

/// Length of the longest common suffix of `prev` and `next` that does not
/// overlap their common prefix of length `prefix`.
pub fn common_suffix_len<T: PartialEq>(prev: &[T], next: &[T], prefix: usize, counter: &mut u64) -> (n: usize)
    requires
        prefix <= min_len(prev@.len(), next@.len()),
    ensures
        n <= min_len(prev@.len(), next@.len()) - prefix,
        T::obeys_eq_spec() ==> is_common_suffix_len(prev@, next@, prefix as nat, n as nat),
        *final(counter) == counted(
            *old(counter),
            scan_comparisons(n as nat, (min_len(prev@.len(), next@.len()) - prefix) as nat),
        ),
{
    let max: usize = if prev.len() <= next.len() {
        prev.len() - prefix
    } else {
        next.len() - prefix
    };
    let mut n: usize = 0;
    while n < max && prev[prev.len() - 1 - n] == next[next.len() - 1 - n]
        invariant
            max == min_len(prev@.len(), next@.len()) - prefix,
            n <= max,
            T::obeys_eq_spec() ==> forall|i: int|
                0 <= i < n ==> #[trigger] same(prev@, prev@.len() - 1 - i, next@, next@.len() - 1 - i),
        decreases max - n,
    {
        n = n + 1;
    }
    let count: usize = if n < max {
        n + 1
    } else {
        n
    };
    note_comparisons(counter, count);
    n
}

/// `m` is the first index from `from` on where `a` and `b` differ.
pub open spec fn is_first_difference<T: PartialEq>(a: Seq<T>, b: Seq<T>, from: int, m: int) -> bool {
    &&& from <= m < a.len()
    &&& !same(a, m, b, m)
    &&& forall|i: int| from <= i < m ==> #[trigger] same(a, i, b, i)
}

/// Comparisons a scan of `a[from..]` against `b[from..]` makes: none for
/// different lengths, every element when all are equal, else up to and
/// including the first difference.
pub open spec fn equal_from_comparisons<T: PartialEq>(a: Seq<T>, b: Seq<T>, from: int) -> nat {
    if a.len() != b.len() {
        0
    } else if exists|m: int| is_first_difference(a, b, from, m) {
        let m = choose|m: int| is_first_difference(a, b, from, m);
        (m - from + 1) as nat
    } else if from <= a.len() {
        (a.len() - from) as nat
    } else {
        0
    }
}

/// Whether `prev[from..]` and `next[from..]` are element-wise equal. Slices of
/// different lengths are never equal, and then no comparison is counted.
pub fn blocks_equal_from<T: PartialEq>(prev: &[T], next: &[T], from: usize, counter: &mut u64) -> (r: bool)
    ensures
        prev@.len() != next@.len() ==> !r && *final(counter) == *old(counter),
        prev@.len() == next@.len() && T::obeys_eq_spec() ==> {
            &&& r == forall|i: int| from <= i < prev@.len() ==> #[trigger] same(prev@, i, next@, i)
            &&& r ==> *final(counter) == counted(
                *old(counter),
                if from <= prev@.len() {
                    (prev@.len() - from) as nat
                } else {
                    0
                },
            )
            &&& !r ==> exists|m: int|
                from <= m < prev@.len() && !same(prev@, m, next@, m) && (forall|i: int|
                    from <= i < m ==> #[trigger] same(prev@, i, next@, i)) && *final(counter)
                    == counted(*old(counter), (m - from + 1) as nat)
            &&& *final(counter) == counted(
                *old(counter),
                equal_from_comparisons(prev@, next@, from as int),
            )
        },
{
    if prev.len() != next.len() {
        return true_if_never();
    }
    let mut compared: usize = 0;
    let mut equal = true;
    let mut i: usize = if from <= prev.len() {
        from
    } else {
        prev.len()
    };
    while i < prev.len()
        invariant_except_break
            prev@.len() == next@.len(),
            from <= prev@.len() ==> from <= i,
            i <= prev@.len(),
            compared == i - (if from <= prev@.len() {
                from as int
            } else {
                prev@.len() as int
            }),
            equal,
            T::obeys_eq_spec() ==> forall|j: int| from <= j < i ==> #[trigger] same(prev@, j, next@, j),
        ensures
            prev@.len() == next@.len(),
            equal ==> compared == if from <= prev@.len() {
                (prev@.len() - from) as nat
            } else {
                0
            },
            equal && T::obeys_eq_spec() ==> forall|j: int|
                from <= j < prev@.len() ==> #[trigger] same(prev@, j, next@, j),
            !equal ==> from <= i < prev@.len() && compared == i - from + 1,
            !equal && T::obeys_eq_spec() ==> !same(prev@, i as int, next@, i as int) && forall|j: int|
                from <= j < i ==> #[trigger] same(prev@, j, next@, j),
        decreases prev@.len() - i,
    {
        compared = compared + 1;
        if !(prev[i] == next[i]) {
            equal = false;
            break;
        }
        i = i + 1;
    }
    note_comparisons(counter, compared);
    proof {
        if T::obeys_eq_spec() {
            if !equal {
                assert(from <= i < prev@.len() && !same(prev@, i as int, next@, i as int));
                assert(is_first_difference(prev@, next@, from as int, i as int));
                let m = choose|m: int| is_first_difference(prev@, next@, from as int, m);
                if m < i {
                    assert(same(prev@, m, next@, m));
                } else if m > i {
                    assert(same(prev@, i as int, next@, i as int));
                }
            } else {
                assert forall|m: int| !is_first_difference(prev@, next@, from as int, m) by {
                    if from <= m < prev@.len() {
                        assert(same(prev@, m, next@, m));
                    }
                }
            }
        }
    }
    equal
}

} // verus!
