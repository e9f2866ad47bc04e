use mersenne_search::mersenne::is_mersenne_prime;

#[test]
fn known_mersenne_prime_exponents() {
    for p in [2u64, 3, 5, 7, 13, 17, 19, 31] {
        assert!(is_mersenne_prime(p, false), "expected M({}) to be prime", p);
    }
}

#[test]
fn composite_mersenne_numbers_with_prime_exponent() {
    for p in [11u64, 23, 29] {
        assert!(!is_mersenne_prime(p, false), "expected M({}) to be composite", p);
    }
}

#[test]
fn invalid_exponents_are_rejected() {
    assert!(!is_mersenne_prime(0, false));
    assert!(!is_mersenne_prime(0, true));
    assert!(!is_mersenne_prime(1, false));
    assert!(!is_mersenne_prime(1, true));
}

#[test]
fn exponent_two_is_the_base_case() {
    assert!(is_mersenne_prime(2, false));
    assert!(is_mersenne_prime(2, true));
}

#[test]
fn verbose_mode_does_not_change_the_answer() {
    assert!(is_mersenne_prime(7, true));
    assert!(!is_mersenne_prime(11, true));
}

#[test]
fn composite_exponents_give_composite_mersenne_numbers() {
    for p in [4u64, 6, 8, 9, 10, 12] {
        assert!(!is_mersenne_prime(p, false), "expected M({}) to be composite", p);
    }
}
