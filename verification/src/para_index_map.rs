//! Compact byte-index maps between a paragraph's original and cleaned text.
//!
//! Cleaning removes characters the shaper must not see (control characters
//! other than tab and newline, and the BOM) and produces maps so editor offsets survive the removal.
//! Offsets are bounded by the paragraph's own length, so `u32` entries
//! suffice, and most paragraphs remove nothing at all: for those the map is
//! the identity and is stored as a single length.

use vstd::prelude::*;

verus! {

/// The entry a `usize` offset is narrowed to: itself, saturated at `u32::MAX`.
pub open spec fn narrowed(v: usize) -> int {
    if v <= u32::MAX {
        v as int
    } else {
        u32::MAX as int
    }
}

/// The sequence of entries a compacted map holds for `indices`.
pub open spec fn compacted(indices: Seq<usize>) -> Seq<int> {
    Seq::new(indices.len(), |i: int| narrowed(indices[i]))
}

/// The entries `ByteIndexMap::from_indices` keeps for `indices`: the indices
/// themselves when they are the identity, else each one narrowed.
pub open spec fn compact_entries(indices: Seq<usize>) -> Seq<int> {
    if is_identity(indices) {
        Seq::new(indices.len(), |i: int| i)
    } else {
        compacted(indices)
    }
}

/// Whether entry `i` of `indices` is `i` for every `i`.
pub open spec fn is_identity(indices: Seq<usize>) -> bool {
    forall|i: int| 0 <= i < indices.len() ==> #[trigger] indices[i] == i
}

/// The clamped lookup every caller performed on a plain vector of offsets:
/// entry `i`, else the last entry, else `0`.
pub open spec fn clamped_lookup(entries: Seq<int>, i: int) -> int {
    if 0 <= i < entries.len() {
        entries[i]
    } else if entries.len() > 0 {
        entries.last()
    } else {
        0
    }
}

/// Compaction is a change of representation, not of behaviour: when every
/// index fits in `u32`, the compacted map holds exactly the given indices, so
/// a clamped lookup into it agrees with the same lookup into the plain
/// vector at every offset, including offsets past the end.
pub proof fn lemma_compaction_is_faithful(indices: Seq<usize>, i: int)
    requires
        forall|j: int| 0 <= j < indices.len() ==> #[trigger] indices[j] <= u32::MAX,
    ensures
        compact_entries(indices) == Seq::new(indices.len(), |j: int| indices[j] as int),
        clamped_lookup(compact_entries(indices), i) == clamped_lookup(
            Seq::new(indices.len(), |j: int| indices[j] as int),
            i,
        ),
{
    let plain = Seq::new(indices.len(), |j: int| indices[j] as int);
    if is_identity(indices) {
        assert(compact_entries(indices) =~= plain);
    } else {
        assert(compact_entries(indices) =~= plain);
    }
}

/// A monotonic map from one byte-offset space to another, stored compactly.
///
/// Indexing is clamping rather than panicking (see [`Self::get_clamped`]):
/// offsets past the end are a normal consequence of a cursor landing on the
/// end sentinel, not an error.
#[derive(Debug, Clone, PartialEq, Eq)]
pub enum ByteIndexMap {
    /// Nothing was removed, so entry `i` is `i` for all `i < len`.
    ///
    /// `len` counts entries, i.e. `text.len() + 1` including the end sentinel.
    Identity {
        /// Number of entries this map covers.
        len: usize,
    },
    /// An explicit mapping, one entry per source byte plus the end sentinel;
    /// the vector's length is the number of entries.
    Mapped(Vec<u32>),
}

impl ByteIndexMap {
    /// The entries of the map, in order.
    pub open spec fn entries(&self) -> Seq<int> {
        match self {
            ByteIndexMap::Identity { len } => Seq::new(*len as nat, |i: int| i),
            ByteIndexMap::Mapped(v) => Seq::new(v@.len(), |i: int| v@[i] as int),
        }
    }

    /// Compacts a freshly built index vector.
    ///
    /// Detects the identity case in one pass; otherwise narrows every entry
    /// to `u32`, saturating at `u32::MAX`.
    pub fn from_indices(indices: &[usize]) -> (map: Self)
        ensures
            map.entries() == compact_entries(indices@),
            map is Identity <==> is_identity(indices@),
    {
        let n = indices.len();
        let mut i: usize = 0;
        let mut identity = true;
        while i < n
            invariant
                n == indices@.len(),
                i <= n,
                identity <==> (forall|j: int| 0 <= j < i ==> #[trigger] indices@[j] == j),
            decreases n - i,
        {
            if indices[i] != i {
                identity = false;
            }
            i = i + 1;
        }
        if identity {
            return ByteIndexMap::Identity { len: n };
        }
        let mut out: Vec<u32> = Vec::with_capacity(n);
        let mut k: usize = 0;
        while k < n
            invariant
                n == indices@.len(),
                k <= n,
                out@.len() == k,
                forall|j: int| 0 <= j < k ==> out@[j] as int == narrowed(#[trigger] indices@[j]),
            decreases n - k,
        {
            let v = indices[k];
            let e: u32 = if v <= u32::MAX as usize {
                v as u32
            } else {
                u32::MAX
            };
            out.push(e);
            k = k + 1;
        }
        let map = ByteIndexMap::Mapped(out);
        assert(map.entries() =~= compact_entries(indices@));
        map
    }

    /// Number of entries, including the end sentinel.
    pub fn len(&self) -> (n: usize)
        ensures
            n == self.entries().len(),
    {
        match self {
            ByteIndexMap::Identity { len } => *len,
            ByteIndexMap::Mapped(v) => v.len(),
        }
    }

    /// Whether the map covers no offsets at all.
    pub fn is_empty(&self) -> (b: bool)
        ensures
            b == (self.entries().len() == 0),
    {
        self.len() == 0
    }

    /// The entry at `i`, or `None` if `i` is past the end.
    pub fn get(&self, i: usize) -> (r: Option<usize>)
        ensures
            r == (if i < self.entries().len() {
                Some(self.entries()[i as int] as usize)
            } else {
                None
            }),
    {
        match self {
            ByteIndexMap::Identity { len } => {
                if i < *len {
                    Some(i)
                } else {
                    None
                }
            },
            ByteIndexMap::Mapped(v) => {
                if i < v.len() {
                    Some(v[i] as usize)
                } else {
                    None
                }
            },
        }
    }

    /// The last entry, or `None` for an empty map.
    pub fn last(&self) -> (r: Option<usize>)
        ensures
            r == (if self.entries().len() > 0 {
                Some(self.entries().last() as usize)
            } else {
                None
            }),
    {
        match self {
            ByteIndexMap::Identity { len } => {
                if *len > 0 {
                    Some(*len - 1)
                } else {
                    None
                }
            },
            ByteIndexMap::Mapped(v) => {
                let n = v.len();
                if n > 0 {
                    Some(v[n - 1] as usize)
                } else {
                    None
                }
            },
        }
    }

    /// The entry at `i`, clamped to the last entry, or `0` for an empty map.
    pub fn get_clamped(&self, i: usize) -> (r: usize)
        ensures
            r == clamped_lookup(self.entries(), i as int),
    {
        match self.get(i) {
            Some(v) => v,
            None => match self.last() {
                Some(v) => v,
                None => 0,
            },
        }
    }
}

} // verus!
