use learn_rust_cli::prng::Prng;

#[test]
fn next_u32_follows_the_recurrence() {
    let mut prng = Prng::new(0);
    assert_eq!(prng.next_u32(), 12_345);
    assert_eq!(prng.seed(), 12_345);
    assert_eq!(prng.next_u32(), 1_406_932_606);
    assert_eq!(prng.seed(), 1_406_932_606);
}

#[test]
fn next_u32_wraps_as_thirty_two_bit_arithmetic_does() {
    let mut seed: u32 = u32::MAX;
    let mut prng = Prng::new(seed);
    for _ in 0..1000 {
        seed = seed.wrapping_mul(1_103_515_245).wrapping_add(12_345);
        seed %= 1 << 31;
        assert_eq!(prng.next_u32(), seed);
        assert!(seed < (1 << 31));
    }
}

#[test]
fn equal_seeds_give_equal_sequences() {
    let mut a = Prng::new(987_654_321);
    let mut b = Prng::new(987_654_321);
    for _ in 0..100 {
        assert_eq!(a.next_u32(), b.next_u32());
    }
    assert_eq!(a, b);
}
