//! Two-generation paragraph-layout cache, bounded by retained bytes and by
//! entry count.
//!
//! Entries hit in the older generation are promoted into the current one, so
//! the working set survives a rotation; whatever was not touched within one
//! rotation is dropped. Each entry remembers the byte figure it contributed
//! when it was inserted, so promotion, eviction and [`ParaCache::stats`] only
//! move running totals around; the module proves that those totals equal the
//! sum over the resident entries as long as that sum fits a `usize` (the
//! totals saturate rather than wrap), and that a `put` of an entry no bigger
//! than a generation keeps both generations within the byte cap.
use std::collections::HashMap;
use vstd::prelude::*;

verus! {

broadcast use vstd::std_specs::hash::group_hash_axioms;

/// Live entries in the current generation before a `put` rotates.
pub const CACHE_CAP: usize = 2048;

/// Retained bytes in the current generation before a `put` rotates (8 MiB).
pub const GENERATION_BYTE_CAP: usize = 8388608;

/// One cached value and the byte figure it contributed when it was inserted.
pub struct CacheEntry<V> {
    pub value: V,
    pub bytes: usize,
}

/// Sum of the byte figures of every entry of a generation.
pub open spec fn total_bytes<V>(m: Map<u64, CacheEntry<V>>) -> nat
    decreases m.dom().len(),
{
    if m.dom().finite() && m.dom().len() > 0 {
        let k = m.dom().choose();
        proof {
            assert(m.dom().contains(k)) by {
                broadcast use vstd::set::axiom_set_choose_len;
            }
            broadcast use vstd::set::axiom_set_remove_len;
        }
        m[k].bytes as nat + total_bytes(m.remove(k))
    } else {
        0
    }
}

/// Removing any one entry takes exactly its byte figure off the total,
/// whichever entry the definition happens to peel off first.
pub proof fn lemma_total_bytes_remove<V>(m: Map<u64, CacheEntry<V>>, k: u64)
    requires
        m.dom().finite(),
        m.dom().contains(k),
    ensures
        total_bytes(m) == m[k].bytes as nat + total_bytes(m.remove(k)),
    decreases m.dom().len(),
{
    broadcast use vstd::set::axiom_set_remove_len, vstd::set::axiom_set_choose_len;

    let c = m.dom().choose();
    if c != k {
        lemma_total_bytes_remove(m.remove(c), k);
        lemma_total_bytes_remove(m.remove(k), c);
        assert(m.remove(c).remove(k) =~= m.remove(k).remove(c));
    }
}

/// Inserting a key that was absent adds exactly its byte figure.
pub proof fn lemma_total_bytes_insert<V>(m: Map<u64, CacheEntry<V>>, k: u64, e: CacheEntry<V>)
    requires
        m.dom().finite(),
        !m.dom().contains(k),
    ensures
        total_bytes(m.insert(k, e)) == total_bytes(m) + e.bytes,
{
    lemma_total_bytes_remove(m.insert(k, e), k);
    assert(m.insert(k, e).remove(k) =~= m);
}

/// Replacing the entry under a present key swaps one byte figure for the other.
pub proof fn lemma_total_bytes_replace<V>(m: Map<u64, CacheEntry<V>>, k: u64, e: CacheEntry<V>)
    requires
        m.dom().finite(),
        m.dom().contains(k),
    ensures
        total_bytes(m.insert(k, e)) + m[k].bytes == total_bytes(m) + e.bytes,
{
    lemma_total_bytes_remove(m.insert(k, e), k);
    lemma_total_bytes_remove(m, k);
    assert(m.insert(k, e).remove(k) =~= m.remove(k));
}

/// The empty generation holds no bytes.
pub proof fn lemma_total_bytes_empty<V>()
    ensures
        total_bytes(Map::<u64, CacheEntry<V>>::empty()) == 0,
{
}

/// `a + b`, saturated at `usize::MAX`.
pub open spec fn sat_add(a: nat, b: nat) -> nat {
    if a + b <= usize::MAX {
        a + b
    } else {
        usize::MAX as nat
    }
}

/// `a - b`, saturated at zero.
pub open spec fn sat_sub(a: nat, b: nat) -> nat {
    if a >= b {
        (a - b) as nat
    } else {
        0
    }
}

/// Two-generation cache of values keyed by a 64-bit hash.
pub struct ParaCache<V> {
    current: HashMap<u64, CacheEntry<V>>,
    previous: HashMap<u64, CacheEntry<V>>,
    current_bytes: usize,
    previous_bytes: usize,
}

impl<V> Default for ParaCache<V> {
    /// An empty cache.
    fn default() -> (c: Self)
        ensures
            c.wf(),
            c.current_entries() == Map::<u64, CacheEntry<V>>::empty(),
            c.previous_entries() == Map::<u64, CacheEntry<V>>::empty(),
    {
        Self::new()
    }
}

impl<V> ParaCache<V> {
    /// Entries of the current generation.
    pub closed spec fn current_entries(&self) -> Map<u64, CacheEntry<V>> {
        self.current@
    }

    /// Entries of the older generation.
    pub closed spec fn previous_entries(&self) -> Map<u64, CacheEntry<V>> {
        self.previous@
    }

    /// The running byte total kept for the current generation.
    pub closed spec fn current_byte_count(&self) -> nat {
        self.current_bytes as nat
    }

    /// The running byte total kept for the older generation.
    pub closed spec fn previous_byte_count(&self) -> nat {
        self.previous_bytes as nat
    }

    /// Sum of the byte figures over both generations, walked entry by entry.
    pub open spec fn walked_bytes(&self) -> nat {
        total_bytes(self.current_entries()) + total_bytes(self.previous_entries())
    }

    /// Number of resident entries over both generations.
    pub open spec fn entry_count(&self) -> nat {
        self.current_entries().len() + self.previous_entries().len()
    }

    /// Both running totals equal the walked sums, and their sum fits a `usize`.
    pub open spec fn wf(&self) -> bool {
        &&& self.current_byte_count() == total_bytes(self.current_entries())
        &&& self.previous_byte_count() == total_bytes(self.previous_entries())
        &&& self.walked_bytes() <= usize::MAX
    }

    /// Whether a `put` of an entry worth `bytes` retires the current generation
    /// first: it is full by entry count, or the new entry would push it over
    /// the byte cap.
    pub open spec fn put_rotates(&self, bytes: usize) -> bool {
        self.current_entries().len() >= CACHE_CAP
            || self.current_byte_count() + bytes > GENERATION_BYTE_CAP
    }

    /// What a `get` of `key` does: a hit in the current generation is returned
    /// and nothing moves; a hit in the older generation is returned and moved,
    /// entry and bytes, into the current one; a miss returns `None` and
    /// changes nothing.
    pub open spec fn get_effect(&self, after: &Self, key: u64, r: Option<V>) -> bool where V: Clone {
        if self.current_entries().contains_key(key) {
            &&& r is Some
            &&& cloned(self.current_entries()[key].value, r->0)
            &&& after.current_entries() == self.current_entries()
            &&& after.previous_entries() == self.previous_entries()
            &&& after.current_byte_count() == self.current_byte_count()
            &&& after.previous_byte_count() == self.previous_byte_count()
        } else if self.previous_entries().contains_key(key) {
            let e = self.previous_entries()[key];
            &&& r is Some
            &&& cloned(e.value, r->0)
            &&& after.current_entries() == self.current_entries().insert(key, e)
            &&& after.previous_entries() == self.previous_entries().remove(key)
            &&& after.current_byte_count() == sat_add(self.current_byte_count(), e.bytes as nat)
            &&& after.previous_byte_count() == sat_sub(self.previous_byte_count(), e.bytes as nat)
        } else {
            &&& r is None
            &&& after.current_entries() == self.current_entries()
            &&& after.previous_entries() == self.previous_entries()
            &&& after.current_byte_count() == self.current_byte_count()
            &&& after.previous_byte_count() == self.previous_byte_count()
        }
    }

    /// What a `put` of `value` worth `bytes` under `key` does: when it rotates,
    /// the current generation becomes the older one (the older one is dropped)
    /// and the new entry starts a fresh current generation; otherwise the new
    /// entry joins the current generation, replacing any entry under `key`
    /// there, whose bytes are credited back.
    pub open spec fn put_effect(&self, after: &Self, key: u64, value: V, bytes: usize) -> bool {
        if self.put_rotates(bytes) {
            &&& after.previous_entries() == self.current_entries()
            &&& after.current_entries() == Map::<u64, CacheEntry<V>>::empty().insert(
                key,
                CacheEntry { value, bytes },
            )
            &&& after.previous_byte_count() == self.current_byte_count()
            &&& after.current_byte_count() == bytes
        } else {
            &&& after.previous_entries() == self.previous_entries()
            &&& after.current_entries() == self.current_entries().insert(
                key,
                CacheEntry { value, bytes },
            )
            &&& after.previous_byte_count() == self.previous_byte_count()
            &&& after.current_byte_count() == if self.current_entries().contains_key(key) {
                sat_sub(
                    sat_add(self.current_byte_count(), bytes as nat),
                    self.current_entries()[key].bytes as nat,
                )
            } else {
                sat_add(self.current_byte_count(), bytes as nat)
            }
        }
    }

    proof fn lemma_domains_finite(&self)
        ensures
            self.current_entries().dom().finite(),
            self.previous_entries().dom().finite(),
    {
    }

    /// An empty cache.
    pub fn new() -> (c: Self)
        ensures
            c.wf(),
            c.current_entries() == Map::<u64, CacheEntry<V>>::empty(),
            c.previous_entries() == Map::<u64, CacheEntry<V>>::empty(),
            c.current_byte_count() == 0,
            c.previous_byte_count() == 0,
    {
        let c = ParaCache {
            current: HashMap::new(),
            previous: HashMap::new(),
            current_bytes: 0,
            previous_bytes: 0,
        };
        proof {
            lemma_total_bytes_empty::<V>();
        }
        c
    }

    /// Returns a clone of the value cached under `key`. A hit in the older
    /// generation is promoted into the current one, bytes and all, without
    /// testing the caps.
    pub fn get(&mut self, key: u64) -> (r: Option<V>) where V: Clone
        ensures
            old(self).get_effect(&*final(self), key, r),
            old(self).wf() ==> final(self).wf(),
    {
        proof {
            self.lemma_domains_finite();
        }
        match self.current.get(&key) {
            Some(e) => {
                return Some(e.value.clone());
            },
            None => {},
        }
        let removed = self.previous.remove(&key);
        match removed {
            Some(e) => {
                proof {
                    lemma_total_bytes_remove(old(self).previous@, key);
                    lemma_total_bytes_insert(old(self).current@, key, e);
                }
                self.previous_bytes = self.previous_bytes.saturating_sub(e.bytes);
                self.current_bytes = self.current_bytes.saturating_add(e.bytes);
                let out = e.value.clone();
                self.current.insert(key, e);
                Some(out)
            },
            None => {
                assert(self.previous@ =~= old(self).previous@);
                None
            },
        }
    }

    /// Inserts `value`, worth `bytes`, under `key`, first rotating the
    /// generations when the current one is full by either bound. A value
    /// already present under `key` in the current generation is replaced and
    /// its bytes credited back.
    pub fn put(&mut self, key: u64, value: V, bytes: usize)
        ensures
            old(self).put_effect(&*final(self), key, value, bytes),
            old(self).wf() && old(self).walked_bytes() + bytes <= usize::MAX ==> final(self).wf(),
    {
        proof {
            self.lemma_domains_finite();
        }
        if self.current.len() >= CACHE_CAP || self.current_bytes.saturating_add(bytes)
            > GENERATION_BYTE_CAP {
            self.rotate();
        }
        proof {
            self.lemma_domains_finite();
        }
        let ghost before = self.current@;
        self.current_bytes = self.current_bytes.saturating_add(bytes);
        let old_entry = self.current.insert(key, CacheEntry { value, bytes });
        match old_entry {
            Some(o) => {
                proof {
                    lemma_total_bytes_replace(before, key, CacheEntry { value, bytes });
                    lemma_total_bytes_remove(before, key);
                }
                self.current_bytes = self.current_bytes.saturating_sub(o.bytes);
            },
            None => {
                proof {
                    lemma_total_bytes_insert(before, key, CacheEntry { value, bytes });
                }
            },
        }
    }

    /// Retires the current generation into the older one, dropping what the
    /// older one still held.
    fn rotate(&mut self)
        ensures
            final(self).previous_entries() == old(self).current_entries(),
            final(self).current_entries() == Map::<u64, CacheEntry<V>>::empty(),
            final(self).previous_byte_count() == old(self).current_byte_count(),
            final(self).current_byte_count() == 0,
    {
        core::mem::swap(&mut self.previous, &mut self.current);
        self.current.clear();
        self.previous_bytes = self.current_bytes;
        self.current_bytes = 0;
        proof {
            lemma_total_bytes_empty::<V>();
        }
    }

    /// Drops every cached entry.
    pub fn clear(&mut self)
        ensures
            final(self).wf(),
            final(self).current_entries() == Map::<u64, CacheEntry<V>>::empty(),
            final(self).previous_entries() == Map::<u64, CacheEntry<V>>::empty(),
            final(self).current_byte_count() == 0,
            final(self).previous_byte_count() == 0,
    {
        self.current.clear();
        self.previous.clear();
        self.current_bytes = 0;
        self.previous_bytes = 0;
        proof {
            lemma_total_bytes_empty::<V>();
        }
    }

    /// Number of distinct resident entries, both generations.
    pub fn len(&self) -> (n: usize)
        requires
            self.entry_count() <= usize::MAX,
        ensures
            n == self.entry_count(),
    {
        self.current.len() + self.previous.len()
    }

    /// `(entries, retained bytes)` over both generations; the byte figure is
    /// the saturating sum of the two running totals.
    pub fn stats(&self) -> (s: (usize, usize))
        requires
            self.entry_count() <= usize::MAX,
        ensures
            s.0 == self.entry_count(),
            s.1 == if self.current_byte_count() + self.previous_byte_count() <= usize::MAX {
                self.current_byte_count() + self.previous_byte_count()
            } else {
                usize::MAX as nat
            },
            self.wf() ==> s.1 == self.walked_bytes(),
    {
        (self.current.len() + self.previous.len(), self.current_bytes.saturating_add(self.previous_bytes))
    }
}

/// A `get` of the key just `put` hands back a clone of the value put.
pub proof fn lemma_get_after_put<V: Clone>(
    c0: ParaCache<V>,
    c1: ParaCache<V>,
    c2: ParaCache<V>,
    key: u64,
    value: V,
    bytes: usize,
    r: Option<V>,
)
    requires
        c0.put_effect(&c1, key, value, bytes),
        c1.get_effect(&c2, key, r),
    ensures
        r is Some,
        cloned(value, r->0),
{
    assert(c1.current_entries().contains_key(key));
}

/// After any `put`, the current generation holds at most [`CACHE_CAP`]
/// entries and at most [`GENERATION_BYTE_CAP`] bytes, unless the new entry
/// alone is bigger, in which case it is the only entry there.
pub proof fn lemma_put_respects_bounds<V>(
    c0: ParaCache<V>,
    c1: ParaCache<V>,
    key: u64,
    value: V,
    bytes: usize,
)
    requires
        c0.put_effect(&c1, key, value, bytes),
    ensures
        c1.current_entries().len() <= CACHE_CAP,
        c1.current_byte_count() <= GENERATION_BYTE_CAP || (c1.current_byte_count() == bytes
            && c1.current_entries().len() == 1),
{
    c0.lemma_domains_finite();
    let e = CacheEntry { value, bytes };
    if c0.put_rotates(bytes) {
        assert(Map::<u64, CacheEntry<V>>::empty().insert(key, e).dom() =~= set![key]);
    }
}

/// A cache whose generations are within their caps stays within them across
/// any `put` of an entry no bigger than a generation: afterwards the current
/// generation holds at most [`CACHE_CAP`] entries and at most
/// [`GENERATION_BYTE_CAP`] bytes, the older one at most
/// [`GENERATION_BYTE_CAP`] bytes, so the retained total is at most two
/// generations' worth. When the put rotated, the old current generation is
/// the new older one and the old older one is gone; either way a following
/// `get` of `key` serves the value just put.
pub proof fn lemma_put_keeps_generation_bounds<V: Clone>(
    c0: ParaCache<V>,
    c1: ParaCache<V>,
    c2: ParaCache<V>,
    key: u64,
    value: V,
    bytes: usize,
    r: Option<V>,
)
    requires
        c0.current_entries().len() <= CACHE_CAP,
        c0.current_byte_count() <= GENERATION_BYTE_CAP,
        c0.previous_byte_count() <= GENERATION_BYTE_CAP,
        bytes <= GENERATION_BYTE_CAP,
        c0.put_effect(&c1, key, value, bytes),
        c1.get_effect(&c2, key, r),
    ensures
        c1.current_entries().len() <= CACHE_CAP,
        c1.current_byte_count() <= GENERATION_BYTE_CAP,
        c1.previous_byte_count() <= GENERATION_BYTE_CAP,
        c1.current_byte_count() + c1.previous_byte_count() <= 2 * GENERATION_BYTE_CAP,
        c0.put_rotates(bytes) ==> c1.previous_entries() == c0.current_entries(),
        !c0.put_rotates(bytes) ==> c1.previous_entries() == c0.previous_entries(),
        r is Some,
        cloned(value, r->0),
{
    lemma_put_respects_bounds(c0, c1, key, value, bytes);
    lemma_get_after_put(c0, c1, c2, key, value, bytes, r);
}

/// No `put` loses an entry of the current generation other than the one
/// it replaces: each is afterwards resident, unchanged, in one of the two
/// generations, so a following `get` still serves it.
pub proof fn lemma_put_keeps_working_set<V>(
    c0: ParaCache<V>,
    c1: ParaCache<V>,
    key: u64,
    value: V,
    bytes: usize,
    k: u64,
)
    requires
        c0.put_effect(&c1, key, value, bytes),
        c0.current_entries().contains_key(k),
        k != key,
    ensures
        c1.current_entries().contains_key(k) && c1.current_entries()[k] == c0.current_entries()[k]
            || c1.previous_entries().contains_key(k) && c1.previous_entries()[k]
            == c0.current_entries()[k],
{
}

/// A `get` never changes how many entries or bytes are resident: a promotion
/// only moves an entry between generations.
pub proof fn lemma_get_preserves_residency<V: Clone>(
    c0: ParaCache<V>,
    c1: ParaCache<V>,
    key: u64,
    r: Option<V>,
)
    requires
        c0.wf(),
        c0.get_effect(&c1, key, r),
    ensures
        c1.walked_bytes() == c0.walked_bytes(),
        c1.entry_count() == c0.entry_count(),
{
    c0.lemma_domains_finite();
    if !c0.current_entries().contains_key(key) && c0.previous_entries().contains_key(key) {
        let e = c0.previous_entries()[key];
        lemma_total_bytes_remove(c0.previous_entries(), key);
        lemma_total_bytes_insert(c0.current_entries(), key, e);
    }
}

} // verus!
