use mersenne_search::mersenne::mod_mersenne;
use num_bigint::BigUint;

fn modulus(p: u64) -> BigUint {
    (BigUint::from(1u64) << p) - 1u32
}

#[test]
fn reduce_matches_direct_remainder() {
    assert_eq!(
        mod_mersenne(BigUint::from(1234567u64), 5),
        BigUint::from(1234567u64 % 31)
    );
    assert_eq!(mod_mersenne(BigUint::from(1234567u64), 5), BigUint::from(23u64));
    for p in [2u64, 3, 5, 7, 13] {
        let m = modulus(p);
        for n in [0u64, 1, 2, 6, 7, 8, 127, 128, 4095, 65535, 1 << 40, u64::MAX] {
            let big_n = BigUint::from(n);
            let expect = &big_n % &m;
            assert_eq!(mod_mersenne(big_n, p), expect, "n = {}, p = {}", n, p);
        }
    }
}

#[test]
fn reduce_of_zero_is_zero() {
    assert_eq!(mod_mersenne(BigUint::from(0u64), 7), BigUint::from(0u64));
}

#[test]
fn reduce_with_the_smallest_exponent() {
    // 2^1 - 1 = 1: everything is congruent to zero.
    assert_eq!(mod_mersenne(BigUint::from(5u64), 1), BigUint::from(0u64));
    assert_eq!(mod_mersenne(BigUint::from(0u64), 1), BigUint::from(0u64));
}

#[test]
fn reduce_normalizes_the_modulus_itself_to_zero() {
    for p in [2u64, 5, 13] {
        assert_eq!(mod_mersenne(modulus(p), p), BigUint::from(0u64));
    }
}

#[test]
fn reduce_leaves_small_values_unchanged() {
    assert_eq!(mod_mersenne(BigUint::from(30u64), 5), BigUint::from(30u64));
    assert_eq!(mod_mersenne(BigUint::from(5u64), 13), BigUint::from(5u64));
}

#[test]
fn reduce_result_is_congruent_and_canonical() {
    let samples: Vec<BigUint> = vec![
        BigUint::from(0u64),
        BigUint::from(97u64),
        BigUint::from(1u64) << 100,
        (BigUint::from(1u64) << 200) - 3u32,
        BigUint::from(0xdead_beef_cafe_f00du64) * BigUint::from(0x1234_5678_9abc_def0u64),
    ];
    for p in [2u64, 3, 11, 31] {
        let m = modulus(p);
        for n in &samples {
            let r = mod_mersenne(n.clone(), p);
            assert!(r < m, "result must lie in [0, 2^p - 2]");
            assert_eq!((n - &r) % &m, BigUint::from(0u64), "result must be congruent to n");
        }
    }
}

#[test]
fn reduce_is_idempotent() {
    for p in [2u64, 3, 11, 31] {
        for seed in [0u64, 5, 1234567, u64::MAX] {
            let n = BigUint::from(seed) * BigUint::from(seed) + BigUint::from(seed);
            let once = mod_mersenne(n, p);
            let twice = mod_mersenne(once.clone(), p);
            assert_eq!(once, twice);
        }
    }
}
