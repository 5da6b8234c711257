//! The Bloom filter: a set of keys that may answer yes for a key it never
//! saw, and never answers no for one it did.

use crate::bit_array::BitArray;
use crate::filter_model::{
    all_probes_set, bits_after_insert, count_set, key_touches, lemma_count_set_monotone,
    lemma_inserted_key_is_found, lemma_slot_in_range, probe_slot, slot_of,
};
use crate::hashing::hash_key;
use vstd::prelude::*;

verus! {

/// Why a filter could not be made.
#[derive(Debug, Clone, Copy, PartialEq, Eq, Structural)]
pub enum FilterError {
    /// The filter would have no bits.
    ZeroSize,
    /// The filter would have more bits than can be addressed.
    TooLarge,
}

/// A Bloom filter of `m` bits that probes `k` bits for each key.
///
/// `m` and `k` are fixed when the filter is made. The filter owns its bits;
/// they start clear, and inserting a key sets the bits its probes select.
#[derive(Debug)]
pub struct BloomFilter {
    m: u128,
    k: u32,
    bit_array: BitArray,
}

impl BloomFilter {
    /// The filter has at least one bit, and exactly `m` of them.
    pub closed spec fn wf(&self) -> bool {
        &&& self.bit_array.wf()
        &&& self.m >= 1
        &&& self.m <= usize::MAX
        &&& self.bit_array@.len() == self.m
    }

    /// The number of bits.
    pub closed spec fn spec_m(&self) -> u128 {
        self.m
    }

    /// The number of probes for each key.
    pub closed spec fn spec_k(&self) -> u32 {
        self.k
    }

    /// The bits, by index.
    pub closed spec fn bits(&self) -> Seq<bool> {
        self.bit_array@
    }

    /// A filter has as many bits as its size says, and at least one.
    pub proof fn lemma_wf_size(&self)
        requires
            self.wf(),
        ensures
            self.spec_m() >= 1,
            self.bits().len() == self.spec_m(),
    {
    }

    /// Makes a filter of `m` bits, all clear, with `k` probes for each key.
    ///
    /// A filter needs at least one bit, and no more than can be addressed.
    /// A probe count of zero is accepted: such a filter sets and tests no
    /// bit, and answers yes to every lookup.
    pub fn new(m: u128, k: u32) -> (r: Result<BloomFilter, FilterError>)
        ensures
            m == 0 ==> r == Err::<BloomFilter, FilterError>(FilterError::ZeroSize),
            m > usize::MAX ==> r == Err::<BloomFilter, FilterError>(FilterError::TooLarge),
            1 <= m <= usize::MAX ==> (r matches Ok(filter) && filter.wf() && filter.spec_m() == m
                && filter.spec_k() == k && filter.bits() =~= Seq::new(m as nat, |i: int| false)),
    {
        if m == 0 {
            return Err(FilterError::ZeroSize);
        }
        if m > usize::MAX as u128 {
            return Err(FilterError::TooLarge);
        }
        let bit_array = BitArray::new(m as usize);
        proof {
            bit_array.lemma_view_len();
        }
        Ok(BloomFilter { m, k, bit_array })
    }

    /// The number of bits.
    pub fn m(&self) -> (r: u128)
        ensures
            r == self.spec_m(),
    {
        self.m
    }

    /// The number of probes for each key.
    pub fn k(&self) -> (r: u32)
        ensures
            r == self.spec_k(),
    {
        self.k
    }

    /// Sets the bit that `digest` selects; without a digest, does nothing.
    pub fn insert_digest(&mut self, digest: Option<u128>)
        requires
            old(self).wf(),
        ensures
            final(self).wf(),
            final(self).spec_m() == old(self).spec_m(),
            final(self).spec_k() == old(self).spec_k(),
            final(self).bits() == (match slot_of(digest, old(self).spec_m()) {
                Some(j) => old(self).bits().update(j, true),
                None => old(self).bits(),
            }),
    {
        if let Some(hash) = digest {
            let index: u128 = hash % self.m;
            let _ = self.bit_array.set(index as usize, true);
            proof {
                self.bit_array.lemma_view_len();
            }
        }
    }

    /// Whether the bit that `digest` selects is set; without a digest, yes.
    pub fn lookup_digest(&self, digest: Option<u128>) -> (r: bool)
        requires
            self.wf(),
        ensures
            r == (match slot_of(digest, self.spec_m()) {
                Some(j) => self.bits()[j],
                None => true,
            }),
    {
        match digest {
            Some(hash) => {
                let index: u128 = hash % self.m;
                match self.bit_array.get(index as usize) {
                    Ok(bit) => bit,
                    Err(_) => false,
                }
            },
            None => true,
        }
    }

    /// Inserts `key`: sets the bit of each of its `k` probes and clears
    /// none. Inserting a key again changes nothing.
    pub fn insert(&mut self, key: &str)
        requires
            old(self).wf(),
        ensures
            final(self).wf(),
            final(self).spec_m() == old(self).spec_m(),
            final(self).spec_k() == old(self).spec_k(),
            final(self).bits() == bits_after_insert(
                old(self).bits(),
                key@,
                old(self).spec_k(),
                old(self).spec_m(),
            ),
            forall|j: int|
                0 <= j < old(self).bits().len() && old(self).bits()[j] ==> #[trigger] final(self).bits()[j],
            count_set(old(self).bits()) <= count_set(final(self).bits()),
            all_probes_set(final(self).bits(), key@, old(self).spec_k(), old(self).spec_m()),
    {
        let ghost before = self.bits();
        let mut i: u32 = 0;
        while i < self.k
            invariant
                self.wf(),
                self.m == old(self).m,
                self.k == old(self).k,
                i <= self.k,
                before == old(self).bits(),
                self.bits().len() == before.len(),
                forall|j: int|
                    0 <= j < before.len() ==> #[trigger] self.bits()[j] == (before[j]
                        || key_touches(key@, i, self.m, j)),
            decreases self.k - i,
        {
            let digest = hash_key(key, i);
            self.insert_digest(digest);
            proof {
                lemma_slot_in_range(digest, self.m);
                assert forall|j: int| 0 <= j < before.len() implies #[trigger] self.bits()[j] == (
                before[j] || key_touches(key@, (i + 1) as u32, self.m, j)) by {
                    if key_touches(key@, i, self.m, j) {
                        let w = choose|w: u32|
                            w < i && #[trigger] probe_slot(key@, w, self.m) == Some(j);
                        assert(w < i + 1 && probe_slot(key@, w, self.m) == Some(j));
                    }
                    if probe_slot(key@, i, self.m) == Some(j) {
                        assert(key_touches(key@, (i + 1) as u32, self.m, j));
                    }
                }
            }
            i += 1;
        }
        proof {
            assert(self.bits() =~= bits_after_insert(before, key@, self.k, self.m));
            lemma_count_set_monotone(before, self.bits());
            lemma_inserted_key_is_found(before, key@, self.k, self.m);
        }
    }

    /// Looks `key` up: answers yes exactly if the bit of each of its `k`
    /// probes is set, and stops at the first that is not. The answer depends
    /// on the key and the bits alone, so the same lookup gives the same
    /// answer until the next insert.
    pub fn lookup(&self, key: &str) -> (r: bool)
        requires
            self.wf(),
        ensures
            r == all_probes_set(self.bits(), key@, self.spec_k(), self.spec_m()),
    {
        let mut i: u32 = 0;
        while i < self.k
            invariant
                self.wf(),
                i <= self.k,
                forall|w: u32|
                    w < i ==> match #[trigger] probe_slot(key@, w, self.m) {
                        Some(j) => 0 <= j < self.bits().len() && self.bits()[j],
                        None => true,
                    },
            decreases self.k - i,
        {
            let digest = hash_key(key, i);
            proof {
                lemma_slot_in_range(digest, self.m);
            }
            if !self.lookup_digest(digest) {
                assert(probe_slot(key@, i, self.m) is Some);
                return false;
            }
            i += 1;
        }
        true
    }
}

} // verus!
