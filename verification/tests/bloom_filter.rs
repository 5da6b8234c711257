use learn_rust_cli::bloom_filter::{BloomFilter, FilterError};
use std::io::Cursor;

/// The bits of the filter, read one by one: a digest below `m` selects the
/// bit of the same index.
fn bits_of(filter: &BloomFilter) -> Vec<bool> {
    let mut bits = Vec::new();
    let mut j: u128 = 0;
    while j < filter.m() {
        bits.push(filter.lookup_digest(Some(j)));
        j += 1;
    }
    bits
}

fn count_set(bits: &[bool]) -> usize {
    bits.iter().filter(|b| **b).count()
}

fn derived_m(n: u32, f: f64) -> u128 {
    let denom = libm::log(2.0) * libm::log(2.0);
    libm::ceil(-libm::log(f) * (n as f64) / denom) as u128
}

fn derived_k(m: u128, n: u32) -> u32 {
    libm::floor((m as f64) * libm::log(2.0) / (n as f64)) as u32
}

#[test]
fn new_keeps_size_and_probe_count() {
    let filter = BloomFilter::new(96, 6).unwrap();
    assert_eq!(filter.m(), 96);
    assert_eq!(filter.k(), 6);
    assert_eq!(bits_of(&filter), vec![false; 96]);
}

#[test]
fn new_rejects_a_filter_without_bits() {
    assert_eq!(BloomFilter::new(0, 6).err(), Some(FilterError::ZeroSize));
    assert_eq!(BloomFilter::new(0, 0).err(), Some(FilterError::ZeroSize));
}

#[test]
fn new_rejects_a_filter_too_large_to_address() {
    let too_many = (usize::MAX as u128) + 1;
    assert_eq!(BloomFilter::new(too_many, 3).err(), Some(FilterError::TooLarge));
    assert_eq!(BloomFilter::new(u128::MAX, 3).err(), Some(FilterError::TooLarge));
}

#[test]
fn derived_parameters_follow_the_closed_forms() {
    let m = derived_m(10, 0.01);
    let k = derived_k(m, 10);
    assert_eq!(m, 96);
    assert_eq!(k, 6);
    let filter = BloomFilter::new(m, k).unwrap();
    assert_eq!(filter.m(), m);
    assert_eq!(filter.k(), k);
}

#[test]
fn insert_digest_sets_the_digest_modulo_m() {
    let mut filter = BloomFilter::new(96, 6).unwrap();
    filter.insert_digest(Some(100));
    filter.insert_digest(Some(95));
    filter.insert_digest(Some(96 * 1_000_000_007 + 17));
    filter.insert_digest(None);
    let bits = bits_of(&filter);
    for j in 0..96 {
        assert_eq!(bits[j], j == 4 || j == 95 || j == 17);
    }
}

#[test]
fn lookup_digest_reads_the_digest_modulo_m() {
    let mut filter = BloomFilter::new(10, 1).unwrap();
    filter.insert_digest(Some(3));
    assert!(filter.lookup_digest(Some(3)));
    assert!(filter.lookup_digest(Some(13)));
    assert!(filter.lookup_digest(Some(u128::MAX - 2)));
    assert!(!filter.lookup_digest(Some(4)));
    assert!(!filter.lookup_digest(Some(30)));
    assert!(filter.lookup_digest(None));
}

#[test]
fn insert_sets_exactly_the_probed_bits() {
    let mut filter = BloomFilter::new(96, 6).unwrap();
    filter.insert("42");
    let mut expected = vec![false; 96];
    for seed in 0..6u32 {
        let digest = murmur3::murmur3_x64_128(&mut Cursor::new("42"), seed).unwrap();
        expected[(digest % 96) as usize] = true;
    }
    assert_eq!(bits_of(&filter), expected);
}

#[test]
fn insert_of_the_empty_key_with_seed_zero_sets_bit_zero() {
    let mut filter = BloomFilter::new(7, 1).unwrap();
    filter.insert("");
    assert_eq!(
        bits_of(&filter),
        vec![true, false, false, false, false, false, false]
    );
}

#[test]
fn probes_use_their_number_as_seed() {
    let mut filter = BloomFilter::new(1 << 20, 4).unwrap();
    filter.insert("key");
    for seed in 0..4u32 {
        let digest = murmur3::murmur3_x64_128(&mut Cursor::new("key"), seed).unwrap();
        assert!(filter.lookup_digest(Some(digest)));
    }
    assert!(count_set(&bits_of(&filter)) > 1);
}

#[test]
fn inserted_keys_are_found() {
    let m = derived_m(10, 0.01);
    let k = derived_k(m, 10);
    let mut filter = BloomFilter::new(m, k).unwrap();
    filter.insert("1");
    filter.insert("2");
    filter.insert("42");
    assert!(filter.lookup("1"));
    assert!(filter.lookup("2"));
    assert!(filter.lookup("42"));
}

#[test]
fn lookup_of_an_unseen_key_is_repeatable() {
    let m = derived_m(10, 0.01);
    let k = derived_k(m, 10);
    let mut filter = BloomFilter::new(m, k).unwrap();
    filter.insert("1");
    filter.insert("2");
    filter.insert("42");
    let first = filter.lookup("3");
    let before = bits_of(&filter);
    for _ in 0..5 {
        assert_eq!(filter.lookup("3"), first);
    }
    assert_eq!(bits_of(&filter), before);
}

#[test]
fn no_false_negatives_for_many_keys() {
    let mut filter = BloomFilter::new(128, 3).unwrap();
    let keys: Vec<String> = (0..200).map(|i| format!("key-{}", i)).collect();
    for key in &keys {
        filter.insert(key);
    }
    for key in &keys {
        assert!(filter.lookup(key));
    }
}

#[test]
fn inserting_twice_changes_nothing() {
    let mut filter = BloomFilter::new(96, 6).unwrap();
    filter.insert("1");
    filter.insert("again");
    let once = bits_of(&filter);
    filter.insert("again");
    assert_eq!(bits_of(&filter), once);
}

#[test]
fn insert_never_clears_a_bit() {
    let mut filter = BloomFilter::new(64, 5).unwrap();
    let mut before = bits_of(&filter);
    for i in 0..40 {
        filter.insert(&format!("item {}", i));
        let after = bits_of(&filter);
        for j in 0..64 {
            assert!(!before[j] || after[j]);
        }
        assert!(count_set(&after) >= count_set(&before));
        before = after;
    }
}

#[test]
fn empty_filter_finds_nothing() {
    let filter = BloomFilter::new(96, 6).unwrap();
    assert!(!filter.lookup("1"));
    assert!(!filter.lookup(""));
    assert!(!filter.lookup("anything"));
    let single = BloomFilter::new(1, 1).unwrap();
    assert!(!single.lookup("x"));
}

#[test]
fn filter_without_probes_answers_yes() {
    let mut filter = BloomFilter::new(96, 0).unwrap();
    assert!(filter.lookup("never inserted"));
    filter.insert("something");
    assert_eq!(bits_of(&filter), vec![false; 96]);
    assert!(filter.lookup("something else"));
}

#[test]
fn filter_of_one_bit_saturates() {
    let mut filter = BloomFilter::new(1, 3).unwrap();
    filter.insert("a");
    assert_eq!(bits_of(&filter), vec![true]);
    assert!(filter.lookup("b"));
}
