//! The family list offered by a font picker: every available family name,
//! ordered alphabetically without regard to case, each name once.
use vstd::prelude::*;
use crate::chars::chars_of;
use crate::font_substitutes::{lowercased, to_lowercase};

verus! {

/// Lexicographic order on character sequences, character by character by
/// code point; a sequence comes before every longer one it begins. This is
/// the order in which `String`s compare, since UTF-8 keeps code-point order.
pub open spec fn chars_le(a: Seq<char>, b: Seq<char>) -> bool
    decreases a.len(),
{
    if a.len() == 0 {
        true
    } else if b.len() == 0 {
        false
    } else if a[0] != b[0] {
        a[0] < b[0]
    } else {
        chars_le(a.drop_first(), b.drop_first())
    }
}

/// Every sequence is in order with itself.
pub proof fn lemma_chars_le_reflexive(a: Seq<char>)
    ensures
        chars_le(a, a),
    decreases a.len(),
{
    if a.len() > 0 {
        lemma_chars_le_reflexive(a.drop_first());
    }
}

/// Any two sequences are in order one way or the other.
pub proof fn lemma_chars_le_total(a: Seq<char>, b: Seq<char>)
    ensures
        chars_le(a, b) || chars_le(b, a),
    decreases a.len(),
{
    if a.len() > 0 && b.len() > 0 && a[0] == b[0] {
        lemma_chars_le_total(a.drop_first(), b.drop_first());
    }
}

/// Sequences in order both ways are equal.
pub proof fn lemma_chars_le_antisymmetric(a: Seq<char>, b: Seq<char>)
    requires
        chars_le(a, b),
        chars_le(b, a),
    ensures
        a == b,
    decreases a.len(),
{
    if a.len() > 0 {
        assert(b.len() > 0);
        if a[0] != b[0] {
            assert(a[0] < b[0]);
            assert(b[0] < a[0]);
        }
        let (ta, tb) = (a.drop_first(), b.drop_first());
        lemma_chars_le_antisymmetric(ta, tb);
        assert(a.len() == b.len());
        assert forall|i: int| 0 <= i < a.len() implies a[i] == b[i] by {
            if i > 0 {
                assert(a[i] == ta[i - 1]);
                assert(b[i] == tb[i - 1]);
            }
        }
        assert(a =~= b);
    } else {
        assert(b.len() == 0);
        assert(a =~= b);
    }
}

/// The order is transitive.
pub proof fn lemma_chars_le_transitive(a: Seq<char>, b: Seq<char>, c: Seq<char>)
    requires
        chars_le(a, b),
        chars_le(b, c),
    ensures
        chars_le(a, c),
    decreases a.len(),
{
    if a.len() > 0 && b.len() > 0 && c.len() > 0 {
        if a[0] == b[0] && b[0] == c[0] {
            lemma_chars_le_transitive(a.drop_first(), b.drop_first(), c.drop_first());
        }
    }
}

/// Whether `a` comes no later than `b` in [`chars_le`] order.
fn chars_le_exec(a: &Vec<char>, b: &Vec<char>) -> (r: bool)
    ensures
        r == chars_le(a@, b@),
{
    let mut i: usize = 0;
    assert(a@.skip(0) =~= a@);
    assert(b@.skip(0) =~= b@);
    while i < a.len() && i < b.len()
        invariant
            i <= a@.len(),
            i <= b@.len(),
            chars_le(a@, b@) == chars_le(a@.skip(i as int), b@.skip(i as int)),
        decreases a@.len() - i,
    {
        let x: char = a[i];
        let y: char = b[i];
        assert(a@.skip(i as int)[0] == a@[i as int]);
        assert(b@.skip(i as int)[0] == b@[i as int]);
        if x != y {
            return x < y;
        }
        assert(a@.skip(i as int).drop_first() =~= a@.skip(i + 1));
        assert(b@.skip(i as int).drop_first() =~= b@.skip(i + 1));
        i = i + 1;
    }
    i == a.len()
}

/// The texts of a sequence of strings.
pub open spec fn texts(names: Seq<String>) -> Seq<Seq<char>> {
    names.map_values(|s: String| s@)
}

/// `order` lists positions `0..n` of a sequence with keys `keys`, each once,
/// so that the keys ascend in [`chars_le`] order and positions with equal
/// keys keep their relative order.
pub open spec fn stable_order(keys: Seq<Seq<char>>, order: Seq<int>, n: int) -> bool {
    &&& order.len() == n
    &&& forall|j: int| 0 <= j < n ==> 0 <= #[trigger] order[j] < n
    &&& forall|j: int, k: int| 0 <= j < k < n ==> #[trigger] order[j] != #[trigger] order[k]
    &&& forall|j: int, k: int|
        0 <= j < k < n ==> chars_le(keys[#[trigger] order[j]], keys[#[trigger] order[k]])
    &&& forall|j: int, k: int|
        0 <= j < k < n && keys[#[trigger] order[j]] == keys[#[trigger] order[k]] ==> order[j]
            < order[k]
}

/// How many of the positions in `order` have keys in order with `k`.
pub open spec fn count_in_order(keys: Seq<Seq<char>>, order: Seq<int>, k: Seq<char>) -> nat
    decreases order.len(),
{
    if order.len() == 0 {
        0
    } else {
        count_in_order(keys, order.drop_last(), k) + if chars_le(keys[order.last()], k) {
            1nat
        } else {
            0nat
        }
    }
}

/// Positions `0..n` in the order of a stable sort by `keys`: each position
/// goes in after every earlier one whose key is in order with its own.
pub open spec fn sorted_positions(keys: Seq<Seq<char>>, n: nat) -> Seq<int>
    decreases n,
{
    if n == 0 {
        Seq::empty()
    } else {
        let before = sorted_positions(keys, (n - 1) as nat);
        before.insert(count_in_order(keys, before, keys[n - 1]) as int, n - 1)
    }
}

/// The elements of `items` taken in the order of `order`.
pub open spec fn arranged(items: Seq<Seq<char>>, order: Seq<int>) -> Seq<Seq<char>> {
    Seq::new(order.len(), |j: int| items[order[j]])
}

/// The keys given as character vectors.
pub open spec fn key_texts(keys: Seq<Vec<char>>) -> Seq<Seq<char>> {
    keys.map_values(|k: Vec<char>| k@)
}

/// The lowercase forms of the names.
pub open spec fn lowercase_keys(names: Seq<String>) -> Seq<Seq<char>> {
    names.map_values(|s: String| lowercased(s@))
}

/// When the positions in `order` whose keys are in order with `k` are exactly
/// its first `p`, there are `p` of them.
proof fn lemma_count_prefix(keys: Seq<Seq<char>>, order: Seq<int>, k: Seq<char>, p: int)
    requires
        0 <= p <= order.len(),
        forall|a: int| 0 <= a < p ==> chars_le(keys[#[trigger] order[a]], k),
        forall|a: int| p <= a < order.len() ==> !chars_le(keys[#[trigger] order[a]], k),
    ensures
        count_in_order(keys, order, k) == p,
    decreases order.len(),
{
    if order.len() > 0 {
        let d = order.drop_last();
        assert forall|a: int| 0 <= a < d.len() implies #[trigger] d[a] == order[a] by {}
        if p == order.len() {
            assert(chars_le(keys[order[p - 1]], k));
            lemma_count_prefix(keys, d, k, p - 1);
        } else {
            assert(!chars_le(keys[order[order.len() - 1]], k));
            lemma_count_prefix(keys, d, k, p);
        }
    }
}

/// Inserting position `i` after the last position whose key is in order with
/// `keys[i]` extends a stable order of `0..i` to one of `0..i + 1`.
proof fn lemma_insert_keeps_stable_order(keys: Seq<Seq<char>>, order: Seq<int>, i: int, p: int)
    requires
        stable_order(keys, order, i),
        0 <= p <= i,
        forall|a: int| 0 <= a < p ==> chars_le(keys[#[trigger] order[a]], keys[i]),
        forall|a: int| p <= a < i ==> !chars_le(keys[#[trigger] order[a]], keys[i]),
    ensures
        stable_order(keys, order.insert(p, i), i + 1),
{
    let o = order.insert(p, i);
    assert forall|j: int| 0 <= j < i + 1 implies 0 <= #[trigger] o[j] < i + 1 by {
        if j > p {
            assert(o[j] == order[j - 1]);
        }
    }
    assert forall|j: int, k: int| 0 <= j < k < i + 1 implies #[trigger] o[j] != #[trigger] o[k] by {
        if j < p && k > p {
            assert(o[k] == order[k - 1]);
        } else if j > p {
            assert(o[j] == order[j - 1]);
            assert(o[k] == order[k - 1]);
        } else if j == p {
            assert(o[k] == order[k - 1]);
        }
    }
    assert forall|j: int, k: int| 0 <= j < k < i + 1 implies chars_le(
        keys[#[trigger] o[j]],
        keys[#[trigger] o[k]],
    ) by {
        if k < p {
        } else if k == p {
            assert(chars_le(keys[order[j]], keys[i]));
        } else if j < p {
            assert(o[k] == order[k - 1]);
            assert(chars_le(keys[order[j]], keys[i]));
            assert(!chars_le(keys[order[k - 1]], keys[i]));
            lemma_chars_le_total(keys[order[k - 1]], keys[i]);
            lemma_chars_le_transitive(keys[order[j]], keys[i], keys[order[k - 1]]);
        } else if j == p {
            assert(o[k] == order[k - 1]);
            assert(!chars_le(keys[order[k - 1]], keys[i]));
            lemma_chars_le_total(keys[order[k - 1]], keys[i]);
        } else {
            assert(o[j] == order[j - 1]);
            assert(o[k] == order[k - 1]);
            assert(chars_le(keys[order[j - 1]], keys[order[k - 1]]));
        }
    }
    assert forall|j: int, k: int|
        0 <= j < k < i + 1 && keys[#[trigger] o[j]] == keys[#[trigger] o[k]] implies o[j]
        < o[k] by {
        if k < p {
        } else if k == p {
        } else if j < p {
            assert(o[k] == order[k - 1]);
        } else if j == p {
            assert(o[k] == order[k - 1]);
            lemma_chars_le_reflexive(keys[i]);
        } else {
            assert(o[j] == order[j - 1]);
            assert(o[k] == order[k - 1]);
        }
    }
}

/// Positions `0..keys.len()` in the stable ascending order of `keys`.
fn stable_key_order(keys: &Vec<Vec<char>>) -> (order: Vec<usize>)
    ensures
        stable_order(key_texts(keys@), order@.map_values(|v: usize| v as int), keys@.len() as int),
        order@.map_values(|v: usize| v as int) == sorted_positions(key_texts(keys@), keys@.len()),
{
    let ghost kv = key_texts(keys@);
    let mut order: Vec<usize> = Vec::new();
    assert(order@.map_values(|v: usize| v as int) =~= sorted_positions(kv, 0));
    let n = keys.len();
    let mut i: usize = 0;
    while i < n
        invariant
            n == keys@.len(),
            kv == key_texts(keys@),
            i <= n,
            stable_order(kv, order@.map_values(|v: usize| v as int), i as int),
            order@.map_values(|v: usize| v as int) == sorted_positions(kv, i as nat),
        decreases n - i,
    {
        let ghost ov = order@.map_values(|v: usize| v as int);
        let mut p: usize = i;
        assert(order@.len() == i);
        loop
            invariant
                n == keys@.len(),
                kv == key_texts(keys@),
                i < n,
                order@.len() == i,
                ov == order@.map_values(|v: usize| v as int),
                stable_order(kv, ov, i as int),
                p <= i,
                forall|a: int| p <= a < i ==> !chars_le(kv[#[trigger] ov[a]], kv[i as int]),
            ensures
                p <= i,
                forall|a: int| p <= a < i ==> !chars_le(kv[#[trigger] ov[a]], kv[i as int]),
                p == 0 || chars_le(kv[ov[p - 1]], kv[i as int]),
            decreases p,
        {
            if p == 0 {
                break;
            }
            let q: usize = order[p - 1];
            assert(q as int == ov[p - 1]);
            if chars_le_exec(&keys[q], &keys[i]) {
                break;
            }
            p = p - 1;
        }
        proof {
            assert forall|a: int| 0 <= a < p implies chars_le(kv[#[trigger] ov[a]], kv[i as int]) by {
                if a < p - 1 {
                    lemma_chars_le_transitive(kv[ov[a]], kv[ov[p - 1]], kv[i as int]);
                }
            }
            lemma_insert_keeps_stable_order(kv, ov, i as int, p as int);
            lemma_count_prefix(kv, ov, kv[i as int], p as int);
        }
        order.insert(p, i);
        assert(order@.map_values(|v: usize| v as int) =~= ov.insert(p as int, i as int));
        i = i + 1;
    }
    order
}

/// `s` with every run of equal adjacent elements cut down to its first.
pub open spec fn dedup_adjacent(s: Seq<Seq<char>>) -> Seq<Seq<char>>
    decreases s.len(),
{
    if s.len() == 0 {
        s
    } else if s.len() >= 2 && s[s.len() - 1] == s[s.len() - 2] {
        dedup_adjacent(s.drop_last())
    } else {
        dedup_adjacent(s.drop_last()).push(s.last())
    }
}

/// Whether two character vectors hold the same characters.
fn chars_equal(a: &Vec<char>, b: &Vec<char>) -> (r: bool)
    ensures
        r == (a@ == b@),
{
    if a.len() != b.len() {
        return false;
    }
    let mut i: usize = 0;
    while i < a.len()
        invariant
            a@.len() == b@.len(),
            i <= a@.len(),
            forall|j: int| 0 <= j < i ==> a@[j] == b@[j],
        decreases a@.len() - i,
    {
        if a[i] != b[i] {
            return false;
        }
        i = i + 1;
    }
    assert(a@ =~= b@);
    true
}

/// `names` sorted by `keys` (the key of `names[i]` is `keys[i]`), stably:
/// names with equal keys keep their order. Adjacent exact repeats are then
/// removed.
pub fn sort_names_by_keys(names: &Vec<String>, keys: &Vec<Vec<char>>) -> (r: Vec<String>)
    requires
        names@.len() == keys@.len(),
    ensures
        stable_order(key_texts(keys@), sorted_positions(key_texts(keys@), keys@.len()), keys@.len() as int),
        texts(r@) == dedup_adjacent(
            arranged(texts(names@), sorted_positions(key_texts(keys@), keys@.len())),
        ),
{
    let n = names.len();
    let ghost input = texts(names@);
    let order = stable_key_order(keys);
    let ghost ov = order@.map_values(|v: usize| v as int);
    let ghost want = arranged(input, ov);
    // The names in sorted order, with their characters.
    let mut sorted: Vec<String> = Vec::new();
    let mut sorted_chars: Vec<Vec<char>> = Vec::new();
    let mut j: usize = 0;
    while j < n
        invariant
            n == names@.len(),
            input == texts(names@),
            order@.len() == n,
            ov == order@.map_values(|v: usize| v as int),
            want == arranged(input, ov),
            forall|k: int| 0 <= k < n ==> 0 <= #[trigger] ov[k] < n,
            j <= n,
            sorted@.len() == j,
            sorted_chars@.len() == j,
            forall|k: int| 0 <= k < j ==> (#[trigger] sorted@[k])@ == want[k],
            forall|k: int| 0 <= k < j ==> (#[trigger] sorted_chars@[k])@ == want[k],
        decreases n - j,
    {
        let q = order[j];
        assert(q as int == ov[j as int]);
        let name = names[q].clone();
        sorted_chars.push(chars_of(name.as_str()));
        sorted.push(name);
        j = j + 1;
    }
    let ghost sv = texts(sorted@);
    assert(sv =~= want);
    // Adjacent exact repeats removed.
    let mut out: Vec<String> = Vec::new();
    let mut k: usize = 0;
    while k < n
        invariant
            sorted@.len() == n,
            sorted_chars@.len() == n,
            sv == texts(sorted@),
            forall|m: int| 0 <= m < n ==> (#[trigger] sorted_chars@[m])@ == sv[m],
            k <= n,
            texts(out@) == dedup_adjacent(sv.take(k as int)),
        decreases n - k,
    {
        let keep = k == 0 || !chars_equal(&sorted_chars[k], &sorted_chars[k - 1]);
        proof {
            assert(sv.take(k + 1).drop_last() =~= sv.take(k as int));
            assert(sv.take(k + 1).last() == sv[k as int]);
            if k > 0 {
                assert(sv.take(k + 1)[k - 1] == sv[k - 1]);
            }
        }
        if keep {
            out.push(sorted[k].clone());
            assert(texts(out@) =~= dedup_adjacent(sv.take(k as int)).push(sv[k as int]));
        }
        k = k + 1;
    }
    assert(sv.take(n as int) =~= sv);
    out
}

/// The family names a font picker offers: `names` sorted by their lowercase
/// forms, stably (names whose lowercase forms are equal keep their order),
/// then with adjacent exact repeats removed. Names differing only in case are
/// both kept.
pub fn sort_family_names(names: &Vec<String>) -> (r: Vec<String>)
    ensures
        stable_order(
            lowercase_keys(names@),
            sorted_positions(lowercase_keys(names@), names@.len()),
            names@.len() as int,
        ),
        texts(r@) == dedup_adjacent(
            arranged(texts(names@), sorted_positions(lowercase_keys(names@), names@.len())),
        ),
{
    let n = names.len();
    let mut keys: Vec<Vec<char>> = Vec::new();
    let mut i: usize = 0;
    while i < n
        invariant
            n == names@.len(),
            i <= n,
            keys@.len() == i,
            forall|j: int| 0 <= j < i ==> (#[trigger] keys@[j])@ == lowercased(names@[j]@),
        decreases n - i,
    {
        let l = to_lowercase(names[i].as_str());
        keys.push(chars_of(l.as_str()));
        i = i + 1;
    }
    assert(key_texts(keys@) =~= lowercase_keys(names@));
    sort_names_by_keys(names, &keys)
}

} // verus!
