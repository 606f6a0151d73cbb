use axiom_core::generation::rng::DeterministicRng;

#[test]
fn same_seed_produces_the_same_sequence() {
    let mut a = DeterministicRng::new(42);
    let mut b = DeterministicRng::new(42);
    for _ in 0..100 {
        assert_eq!(a.next_u64(), b.next_u64());
    }
}

#[test]
fn different_seeds_diverge() {
    let mut a = DeterministicRng::new(1);
    let mut b = DeterministicRng::new(2);
    assert_ne!(a.next_u64(), b.next_u64());
}

#[test]
fn sample_integer_stays_within_bounds_and_reaches_both_endpoints() {
    let mut rng = DeterministicRng::new(7);
    let mut saw_min = false;
    let mut saw_max = false;
    for _ in 0..10_000 {
        let value = rng.sample_integer(3, 5).unwrap();
        assert!((3..=5).contains(&value));
        saw_min |= value == 3;
        saw_max |= value == 5;
    }
    assert!(saw_min, "never sampled the minimum in 10,000 draws");
    assert!(saw_max, "never sampled the maximum in 10,000 draws");
}

#[test]
fn reversed_integer_range_is_rejected_without_consuming_rng_state() {
    let mut baseline = DeterministicRng::new(11);
    let expected_next = baseline.next_u64();

    let mut integer_rng = DeterministicRng::new(11);
    assert_eq!(integer_rng.sample_integer(2, 1), None);
    assert_eq!(integer_rng.next_u64(), expected_next);
}

#[test]
fn full_width_integer_range_does_not_overflow() {
    let mut rng = DeterministicRng::new(13);
    for _ in 0..100 {
        assert!(rng.sample_integer(i64::MIN, i64::MAX).is_some());
    }
}

#[test]
fn first_draw_of_seed_zero_is_the_splitmix64_reference_value() {
    let mut rng = DeterministicRng::new(0);
    assert_eq!(rng.next_u64(), 0xE220_A839_7B1D_CDAF);
    assert_eq!(rng.next_u64(), 0x6E78_9E6A_A1B9_65F4);
}

#[test]
fn single_value_range_always_yields_that_value() {
    let mut rng = DeterministicRng::new(5);
    for _ in 0..50 {
        assert_eq!(rng.sample_integer(-4, -4), Some(-4));
    }
}

#[test]
fn sample_integer_consumes_exactly_one_draw() {
    let mut a = DeterministicRng::new(77);
    let mut b = DeterministicRng::new(77);
    let draw = a.next_u64();
    let value = b.sample_integer(10, 19).unwrap();
    assert_eq!(value, 10 + (draw % 10) as i64);
    assert_eq!(a.next_u64(), b.next_u64());
}

fn mix(z: u64) -> u64 {
    let z = (z ^ (z >> 30)).wrapping_mul(0xBF58_476D_1CE4_E5B9);
    let z = (z ^ (z >> 27)).wrapping_mul(0x94D0_49BB_1331_11EB);
    z ^ (z >> 31)
}

#[test]
fn kth_draw_is_the_mix_of_seed_plus_k_increments() {
    let seed: u64 = 0xDEAD_BEEF;
    let mut rng = DeterministicRng::new(seed);
    for k in 1..=50u64 {
        let expected = mix(seed.wrapping_add(k.wrapping_mul(0x9E37_79B9_7F4A_7C15)));
        assert_eq!(rng.next_u64(), expected);
    }
}
