//! The mathematical model of the filter: which bit a probe selects, what an
//! insertion does to the bits, when a lookup answers yes, and the laws that
//! follow.

use crate::hashing::murmur3_x64_128_digest;
use vstd::prelude::*;

verus! {

/// The bit that a digest selects in a filter of `m` bits: the digest reduced
/// modulo `m`. A probe whose hash gave no digest selects nothing.
pub open spec fn slot_of(digest: Option<u128>, m: u128) -> Option<int>
    recommends
        m >= 1,
{
    match digest {
        Some(h) => Some((h % m) as int),
        None => None,
    }
}

/// The bit that probe number `seed` of `key` selects: the probe's number is
/// the seed of its hash.
pub open spec fn probe_slot(key: Seq<char>, seed: u32, m: u128) -> Option<int> {
    slot_of(murmur3_x64_128_digest(key, seed), m)
}

/// Whether one of the `k` probes of `key` selects bit `j`.
pub open spec fn key_touches(key: Seq<char>, k: u32, m: u128, j: int) -> bool {
    exists|i: u32| i < k && #[trigger] probe_slot(key, i, m) == Some(j)
}

/// The bits after `key` is inserted: every bit that was set or that a probe
/// of `key` selects.
pub open spec fn bits_after_insert(bits: Seq<bool>, key: Seq<char>, k: u32, m: u128) -> Seq<bool> {
    Seq::new(bits.len(), |j: int| bits[j] || key_touches(key, k, m, j))
}

/// The bits after the keys are inserted one by one, first to last.
pub open spec fn bits_after_all(bits: Seq<bool>, keys: Seq<Seq<char>>, k: u32, m: u128) -> Seq<
    bool,
>
    decreases keys.len(),
{
    if keys.len() == 0 {
        bits
    } else {
        bits_after_insert(bits_after_all(bits, keys.drop_last(), k, m), keys.last(), k, m)
    }
}

/// The answer of a lookup: whether every bit that a probe of `key` selects
/// is set. With no probes the answer is yes.
pub open spec fn all_probes_set(bits: Seq<bool>, key: Seq<char>, k: u32, m: u128) -> bool {
    forall|i: u32|
        i < k ==> match #[trigger] probe_slot(key, i, m) {
            Some(j) => 0 <= j < bits.len() && bits[j],
            None => true,
        }
}

/// The number of set bits.
pub open spec fn count_set(bits: Seq<bool>) -> nat
    decreases bits.len(),
{
    if bits.len() == 0 {
        0
    } else {
        count_set(bits.drop_last()) + if bits.last() {
            1nat
        } else {
            0nat
        }
    }
}

/// A probe selects a bit inside the filter.
pub proof fn lemma_slot_in_range(digest: Option<u128>, m: u128)
    requires
        m >= 1,
    ensures
        slot_of(digest, m) matches Some(j) ==> 0 <= j < m,
{
}

/// If no bit of `a` is lost in `b`, then `b` has at least as many set bits.
pub proof fn lemma_count_set_monotone(a: Seq<bool>, b: Seq<bool>)
    requires
        a.len() == b.len(),
        forall|j: int| 0 <= j < a.len() && a[j] ==> b[j],
    ensures
        count_set(a) <= count_set(b),
    decreases a.len(),
{
    if a.len() > 0 {
        lemma_count_set_monotone(a.drop_last(), b.drop_last());
    }
}

/// A key that was just inserted is found: a lookup right after the insert
/// answers yes.
pub proof fn lemma_inserted_key_is_found(bits: Seq<bool>, key: Seq<char>, k: u32, m: u128)
    requires
        m >= 1,
        bits.len() == m,
    ensures
        all_probes_set(bits_after_insert(bits, key, k, m), key, k, m),
{
    let after = bits_after_insert(bits, key, k, m);
    assert forall|i: u32| i < k implies match #[trigger] probe_slot(key, i, m) {
        Some(j) => 0 <= j < after.len() && after[j],
        None => true,
    } by {
        lemma_slot_in_range(murmur3_x64_128_digest(key, i), m);
        if let Some(j) = probe_slot(key, i, m) {
            assert(key_touches(key, k, m, j));
        }
    }
}

/// Inserting another key never turns a yes into a no.
pub proof fn lemma_insert_keeps_found(
    bits: Seq<bool>,
    other: Seq<char>,
    key: Seq<char>,
    k: u32,
    m: u128,
)
    requires
        all_probes_set(bits, key, k, m),
    ensures
        all_probes_set(bits_after_insert(bits, other, k, m), key, k, m),
{
    let after = bits_after_insert(bits, other, k, m);
    assert forall|i: u32| i < k implies match #[trigger] probe_slot(key, i, m) {
        Some(j) => 0 <= j < after.len() && after[j],
        None => true,
    } by {}
}

/// Inserting keys keeps the number of bits.
pub proof fn lemma_bits_after_all_len(bits: Seq<bool>, keys: Seq<Seq<char>>, k: u32, m: u128)
    ensures
        bits_after_all(bits, keys, k, m).len() == bits.len(),
    decreases keys.len(),
{
    if keys.len() > 0 {
        lemma_bits_after_all_len(bits, keys.drop_last(), k, m);
    }
}

/// No false negatives: after all of `keys` are inserted, in whatever state
/// the filter was before, a lookup of any one of them answers yes.
pub proof fn lemma_no_false_negatives(
    bits: Seq<bool>,
    keys: Seq<Seq<char>>,
    which: int,
    k: u32,
    m: u128,
)
    requires
        m >= 1,
        bits.len() == m,
        0 <= which < keys.len(),
    ensures
        all_probes_set(bits_after_all(bits, keys, k, m), keys[which], k, m),
    decreases keys.len(),
{
    let earlier = bits_after_all(bits, keys.drop_last(), k, m);
    lemma_bits_after_all_len(bits, keys.drop_last(), k, m);
    if which == keys.len() - 1 {
        lemma_inserted_key_is_found(earlier, keys.last(), k, m);
    } else {
        lemma_no_false_negatives(bits, keys.drop_last(), which, k, m);
        lemma_insert_keeps_found(earlier, keys.last(), keys[which], k, m);
    }
}

/// Inserting a key a second time changes nothing: the bits after two
/// inserts of the key are the bits after one.
pub proof fn lemma_insert_idempotent(bits: Seq<bool>, key: Seq<char>, k: u32, m: u128)
    ensures
        bits_after_insert(bits_after_insert(bits, key, k, m), key, k, m) == bits_after_insert(
            bits,
            key,
            k,
            m,
        ),
{
    assert(bits_after_insert(bits_after_insert(bits, key, k, m), key, k, m) =~= bits_after_insert(
        bits,
        key,
        k,
        m,
    ));
}

/// An insert clears no bit, so the number of set bits does not go down.
pub proof fn lemma_insert_monotone(bits: Seq<bool>, key: Seq<char>, k: u32, m: u128)
    ensures
        bits_after_insert(bits, key, k, m).len() == bits.len(),
        forall|j: int|
            0 <= j < bits.len() && bits[j] ==> #[trigger] bits_after_insert(bits, key, k, m)[j],
        count_set(bits) <= count_set(bits_after_insert(bits, key, k, m)),
{
    lemma_count_set_monotone(bits, bits_after_insert(bits, key, k, m));
}

/// Inserting any number of keys clears no bit.
pub proof fn lemma_insert_all_monotone(bits: Seq<bool>, keys: Seq<Seq<char>>, k: u32, m: u128)
    ensures
        bits_after_all(bits, keys, k, m).len() == bits.len(),
        forall|j: int|
            0 <= j < bits.len() && bits[j] ==> #[trigger] bits_after_all(bits, keys, k, m)[j],
        count_set(bits) <= count_set(bits_after_all(bits, keys, k, m)),
    decreases keys.len(),
{
    if keys.len() > 0 {
        lemma_insert_all_monotone(bits, keys.drop_last(), k, m);
        lemma_insert_monotone(bits_after_all(bits, keys.drop_last(), k, m), keys.last(), k, m);
    }
    lemma_count_set_monotone(bits, bits_after_all(bits, keys, k, m));
}

/// A filter with no bit set finds nothing: the answer for a key is no as
/// soon as one of its probes has a digest. With no probes at all, or with
/// none that has a digest, the answer is yes.
pub proof fn lemma_empty_filter_finds_nothing(bits: Seq<bool>, key: Seq<char>, k: u32, m: u128)
    requires
        forall|j: int| 0 <= j < bits.len() ==> !bits[j],
    ensures
        all_probes_set(bits, key, k, m) <==> forall|i: u32|
            i < k ==> (#[trigger] murmur3_x64_128_digest(key, i)) is None,
{
    if all_probes_set(bits, key, k, m) {
        assert forall|i: u32| i < k implies (#[trigger] murmur3_x64_128_digest(key, i)) is None by {
            let _ = probe_slot(key, i, m);
        }
    } else {
        let i = choose|i: u32|
            i < k && !(match #[trigger] probe_slot(key, i, m) {
                Some(j) => 0 <= j < bits.len() && bits[j],
                None => true,
            });
        assert(murmur3_x64_128_digest(key, i) is Some);
    }
}

} // verus!
