use vstd::prelude::*;

verus! {

use std::io::Write;
use num_bigint::BigUint;
use vstd::arithmetic::power2::{pow2, lemma_pow2_pos, lemma_pow2_strictly_increases, lemma2_to64};
use vstd::arithmetic::div_mod::{
    lemma_fundamental_div_mod,
    lemma_mod_multiples_vanish,
    lemma_small_mod,
    lemma_mod_self_0,
    lemma_mod_twice,
    lemma_div_is_ordered,
    lemma_div_by_self,
    lemma_div_multiples_vanish,
};
use vstd::arithmetic::mul::lemma_mul_inequality;
use crate::bigint::{
    big_value, big_from_u64, big_mul, big_add, big_sub_u32, big_shl, big_shr, big_and, big_bits,
    big_eq, big_is_zero,
};

/// 2^p - 1, the Mersenne number with exponent `p`.
pub open spec fn mersenne_number(p: nat) -> int {
    pow2(p) - 1
}

/// One Lucas-Lehmer step: square, subtract two, reduce modulo `m`.
pub open spec fn ll_step(s: int, m: int) -> int {
    (s * s - 2) % m
}

/// The Lucas-Lehmer state after `i` steps modulo 2^p - 1, starting from 4.
pub open spec fn ll_state(p: nat, i: nat) -> int
    decreases i,
{
    if i == 0 {
        4
    } else {
        ll_step(ll_state(p, (i - 1) as nat), mersenne_number(p))
    }
}

/// The Lucas-Lehmer answer: for p > 2, the Mersenne number 2^p - 1 is
/// prime exactly when the state after p - 2 steps is zero; p = 2 is the
/// base case and p < 2 is not a valid exponent.
pub open spec fn mersenne_prime_test(p: nat) -> bool {
    if p < 2 {
        false
    } else if p == 2 {
        true
    } else {
        ll_state(p, (p - 2) as nat) == 0
    }
}

/// Reduces `n` modulo 2^p - 1 to the canonical representative in
/// [0, 2^p - 2], replacing division with shift, mask and add steps that
/// use the identity 2^p == 1 (mod 2^p - 1).
pub fn mod_mersenne(n: BigUint, p: u64) -> (r: BigUint)
    requires
        p >= 1,
    ensures
        big_value(r) == big_value(n) as int % mersenne_number(p as nat),
        big_value(r) < mersenne_number(p as nat),
{
    proof {
        lemma2_to64();
        lemma_pow2_strictly_increases(0, p as nat);
        lemma_pow2_pos(p as nat);
    }
    let one = big_from_u64(1);
    let shifted = big_shl(&one, p);
    let modulus = big_sub_u32(&shifted, 1);
    let mut cur = n;
    let ghost orig: int = big_value(cur) as int;
    let mut bits = big_bits(&cur);
    while bits > p
        invariant
            p >= 1,
            pow2(p as nat) >= 2,
            big_value(modulus) + 1 == pow2(p as nat),
            big_value(cur) as int % mersenne_number(p as nat) == orig % mersenne_number(
                p as nat,
            ),
            big_value(cur) < pow2(bits as nat),
            bits > 0 ==> pow2((bits - 1) as nat) <= big_value(cur),
        decreases big_value(cur),
    {
        let high = big_shr(&cur, p);
        let low = big_and(&cur, &modulus);
        let next = big_add(&high, &low);
        proof {
            let m: int = mersenne_number(p as nat);
            let pp: int = pow2(p as nat) as int;
            let c: int = big_value(cur) as int;
            let h: int = big_value(high) as int;
            assert(pow2(p as nat) == big_value(modulus) + 1);
            assert(big_value(low) == big_value(cur) % pow2(p as nat));
            lemma_fundamental_div_mod(c, pp);
            assert(m * h == pp * h - h) by (nonlinear_arith)
                requires
                    m == pp - 1,
            ;
            assert(big_value(next) as int == c - m * h);
            if (bits - 1) as nat > p as nat {
                lemma_pow2_strictly_increases(p as nat, (bits - 1) as nat);
            }
            assert(c >= pp);
            lemma_div_is_ordered(pp, c, pp);
            lemma_div_by_self(pp);
            assert(h >= 1);
            lemma_mul_inequality(1, h, m);
            assert(m * h >= m);
            assert(big_value(next) < big_value(cur));
            lemma_mod_multiples_vanish(h, big_value(next) as int, m);
            assert(big_value(next) as int % m == c % m);
        }
        cur = next;
        bits = big_bits(&cur);
    }
    proof {
        if (bits as nat) < (p as nat) {
            lemma_pow2_strictly_increases(bits as nat, p as nat);
        }
        assert(big_value(cur) < pow2(p as nat));
    }
    if big_eq(&cur, &modulus) {
        proof {
            lemma_mod_self_0(mersenne_number(p as nat));
        }
        big_from_u64(0)
    } else {
        proof {
            lemma_small_mod(big_value(cur), (pow2(p as nat) - 1) as nat);
        }
        cur
    }
}

/// Law: reduction modulo 2^p - 1 is idempotent — a value reduced once is
/// left unchanged by a second reduction.
pub proof fn lemma_mod_mersenne_idempotent(n: nat, p: nat)
    requires
        p >= 1,
    ensures
        (n as int % mersenne_number(p)) % mersenne_number(p) == n as int % mersenne_number(p),
{
    lemma2_to64();
    lemma_pow2_strictly_increases(0, p);
    lemma_mod_twice(n as int, mersenne_number(p));
}

/// Relies on `std::io::Write::write_fmt` through `write!`: emits the
/// in-place progress line; output only, nothing is claimed of it.
#[verifier::external_body]
fn show_progress(p: u64, percent: u64) {
    let _ = write!(std::io::stdout(), "\rTesting p = {}: Progress: {}%", p, percent);
}

/// Relies on `std::io::Write::flush`: pushes the buffered progress line
/// through; output only, nothing is claimed of it.
#[verifier::external_body]
fn flush_stdout() {
    let _ = std::io::stdout().flush();
}

/// Relies on `std::io::Write::write_fmt` through `writeln!`: ends the
/// progress line; output only, nothing is claimed of it.
#[verifier::external_body]
fn finish_progress_line() {
    let _ = writeln!(std::io::stdout());
}

/// Runs the Lucas-Lehmer test on 2^p - 1. When `verbose` is set, a
/// progress percentage is written out at roughly one percent granularity;
/// that output has no effect on the returned answer.
pub fn is_mersenne_prime(p: u64, verbose: bool) -> (r: bool)
    ensures
        r == mersenne_prime_test(p as nat),
{
    if p < 2 {
        return false;
    }
    if p == 2 {
        return true;
    }
    proof {
        lemma2_to64();
        if p > 3 {
            lemma_pow2_strictly_increases(3, p as nat);
        }
    }
    let total: u64 = p - 2;
    let interval: u64 = if total / 100 >= 1 {
        total / 100
    } else {
        1
    };
    let mut s = big_from_u64(4);
    let one = big_from_u64(1);
    let shifted = big_shl(&one, p);
    let modulus = big_sub_u32(&shifted, 1);
    let m_minus_2 = big_sub_u32(&modulus, 2);
    let mut i: u64 = 1;
    while i <= total
        invariant
            3 <= p,
            total == p - 2,
            1 <= i <= total + 1,
            interval >= 1,
            mersenne_number(p as nat) >= 7,
            big_value(modulus) == mersenne_number(p as nat),
            big_value(m_minus_2) == mersenne_number(p as nat) - 2,
            big_value(s) as int == ll_state(p as nat, (i - 1) as nat),
        decreases total as int - i as int + 1,
    {
        // s*s + (m - 2) stays nonnegative even when s is 0 or 1, where
        // s*s - 2 would not; the residue modulo m is the same.
        let sq = big_mul(&s, &s);
        let t = big_add(&sq, &m_minus_2);
        s = mod_mersenne(t, p);
        proof {
            let m: int = mersenne_number(p as nat);
            let prev: int = ll_state(p as nat, (i - 1) as nat);
            assert(big_value(t) as int == prev * prev + m - 2);
            lemma_mod_multiples_vanish(1, prev * prev - 2, m);
            assert(ll_state(p as nat, i as nat) == ll_step(prev, m));
            assert(big_value(s) as int == ll_state(p as nat, i as nat));
        }
        if verbose {
            if i % interval == 0 || i == total {
                let percent_wide: u128 = (i as u128) * 100 / (total as u128);
                proof {
                    lemma_div_is_ordered((i as int) * 100, (total as int) * 100, total as int);
                    lemma_div_multiples_vanish(100, total as int);
                }
                let percent: u64 = percent_wide as u64;
                show_progress(p, percent);
                flush_stdout();
            }
        }
        i = i + 1;
    }
    if verbose {
        finish_progress_line();
    }
    big_is_zero(&s)
}

} // verus!
