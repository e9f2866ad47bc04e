use mersenne_search::search::{mersenne_prime_exponents, prime_exponents_in_range};

#[test]
fn filter_keeps_the_primes_of_the_range() {
    assert_eq!(
        prime_exponents_in_range(2, 20),
        vec![2u64, 3, 5, 7, 11, 13, 17, 19]
    );
}

#[test]
fn filter_of_an_empty_range() {
    assert_eq!(prime_exponents_in_range(10, 9), Vec::<u64>::new());
    assert_eq!(prime_exponents_in_range(24, 28), Vec::<u64>::new());
}

#[test]
fn filter_of_a_single_point_range() {
    assert_eq!(prime_exponents_in_range(13, 13), vec![13u64]);
    assert_eq!(prime_exponents_in_range(15, 15), Vec::<u64>::new());
}

#[test]
fn end_to_end_search_over_a_small_range() {
    assert_eq!(
        mersenne_prime_exponents(2, 20, false),
        vec![2u64, 3, 5, 7, 13, 17, 19]
    );
}

#[test]
fn search_results_come_in_ascending_order() {
    let found = mersenne_prime_exponents(2, 31, false);
    assert_eq!(found, vec![2u64, 3, 5, 7, 13, 17, 19, 31]);
    for w in found.windows(2) {
        assert!(w[0] < w[1]);
    }
}
