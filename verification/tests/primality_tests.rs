use mersenne_search::primality::is_prime;

fn trial_division_ground_truth(n: u64) -> bool {
    if n < 2 {
        return false;
    }
    let mut d: u64 = 2;
    while d < n {
        if n % d == 0 {
            return false;
        }
        d += 1;
    }
    true
}

#[test]
fn matches_ground_truth_up_to_ten_thousand() {
    for n in 0u64..=10000 {
        assert_eq!(is_prime(n), trial_division_ground_truth(n), "disagreement at {}", n);
    }
}

#[test]
fn small_edge_cases() {
    assert!(!is_prime(0));
    assert!(!is_prime(1));
    assert!(is_prime(2));
    assert!(is_prime(3));
    assert!(!is_prime(9));
}

#[test]
fn larger_values() {
    assert!(is_prime(2147483647)); // 2^31 - 1
    assert!(!is_prime(2147483649));
    assert!(is_prime(67280421310721)); // a factor of 2^128 + 1
    assert!(!is_prime(67280421310723));
    assert!(!is_prime(3215031751)); // 151 * 751 * 28351, a strong pseudoprime
}
