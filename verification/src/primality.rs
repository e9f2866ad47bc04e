use vstd::prelude::*;

verus! {

use vstd::arithmetic::div_mod::{
    lemma_fundamental_div_mod,
    lemma_mod_multiples_basic,
    lemma_mod_pos_bound,
};

/// Holds exactly when `n` has no divisor strictly between 1 and itself.
pub open spec fn is_prime_spec(n: nat) -> bool {
    n >= 2 && forall|d: nat| 2 <= d < n ==> #[trigger] (n % d) != 0
}

/// If `k` divides `d` and `d` divides `n`, then `k` divides `n`.
proof fn lemma_divides_transitive(k: nat, d: nat, n: nat)
    requires
        k >= 1,
        d >= 1,
        d % k == 0,
        n % d == 0,
    ensures
        n % k == 0,
{
    lemma_fundamental_div_mod(n as int, d as int);
    lemma_fundamental_div_mod(d as int, k as int);
    let q: int = n as int / d as int;
    let j: int = d as int / k as int;
    assert(n as int == (k as int * j) * q);
    assert((k as int * j) * q == (j * q) * (k as int)) by (nonlinear_arith);
    lemma_mod_multiples_basic(j * q, k as int);
}

/// Checking `i` and `i + 2` suffices to rule out every divisor up to
/// `i + 6`: the four skipped candidates are multiples of 2 or of 3.
proof fn lemma_sieve_step(n: nat, i: nat)
    requires
        i >= 5,
        i % 2 == 1,
        i % 3 == 2,
        n % 2 != 0,
        n % 3 != 0,
        n % i != 0,
        n % (i + 2) != 0,
        forall|d: nat| 2 <= d < i ==> #[trigger] (n % d) != 0,
    ensures
        forall|d: nat| 2 <= d < i + 6 ==> #[trigger] (n % d) != 0,
{
    assert forall|d: nat| 2 <= d < i + 6 implies #[trigger] (n % d) != 0 by {
        if d >= i && n % d == 0 {
            if d == i || d == i + 2 {
            } else if d == i + 1 || d == i + 3 || d == i + 5 {
                assert(d % 2 == 0);
                lemma_divides_transitive(2, d, n);
            } else {
                assert(d == i + 4);
                assert(d % 3 == 0);
                lemma_divides_transitive(3, d, n);
            }
        }
    }
}

/// A number with no divisor below `bound` has none below itself when
/// `bound * bound` exceeds it: divisors pair off around the square root.
proof fn lemma_no_divisor_below_sqrt_implies_prime(n: nat, bound: nat)
    requires
        n >= 2,
        bound >= 2,
        bound * bound > n,
        forall|d: nat| 2 <= d < bound ==> #[trigger] (n % d) != 0,
    ensures
        is_prime_spec(n),
{
    assert forall|d: nat| 2 <= d < n implies #[trigger] (n % d) != 0 by {
        if n % d == 0 {
            lemma_fundamental_div_mod(n as int, d as int);
            let q: int = n as int / d as int;
            assert(n as int == d as int * q);
            assert(q >= 2) by (nonlinear_arith)
                requires
                    n as int == d as int * q,
                    n >= 2,
                    2 <= d < n,
            ;
            if d < bound {
                assert(n % d != 0);
            } else {
                assert(q < bound) by (nonlinear_arith)
                    requires
                        n as int == d as int * q,
                        n < bound * bound,
                        d >= bound,
                        bound >= 2,
                        q >= 2,
                ;
                let qn: nat = q as nat;
                assert(2 <= qn < bound);
                assert(n % qn != 0);
                assert(n as int == qn as int * (d as int)) by (nonlinear_arith)
                    requires
                        n as int == d as int * q,
                        q == qn as int,
                ;
                lemma_mod_multiples_basic(d as int, qn as int);
                assert(false);
            }
        }
    }
}

/// Trial division by 2, 3, and the numbers 6k - 1, 6k + 1 up to the
/// square root: exact over the whole `u64` range.
pub fn is_prime(n: u64) -> (r: bool)
    ensures
        r == is_prime_spec(n as nat),
{
    if n <= 1 {
        return false;
    }
    if n <= 3 {
        assert forall|d: nat| 2 <= d < n as nat implies #[trigger] ((n as nat) % d) != 0 by {
            assert(d == 2 && n == 3);
            assert(3nat % 2nat == 1);
        }
        return true;
    }
    if n % 2 == 0 {
        assert((n as nat) % 2nat == 0);
        return false;
    }
    if n % 3 == 0 {
        assert((n as nat) % 3nat == 0);
        return false;
    }
    proof {
        assert forall|d: nat| 2 <= d < 5 implies #[trigger] ((n as nat) % d) != 0 by {
            if d == 4 && (n as nat) % d == 0 {
                lemma_divides_transitive(2, 4, n as nat);
            }
        }
    }
    let mut i: u64 = 5;
    while i <= n / i
        invariant
            n >= 5,
            n % 2 != 0,
            n % 3 != 0,
            5 <= i,
            i as int <= n as int + 6,
            i % 2 == 1,
            i % 3 == 2,
            forall|d: nat| 2 <= d < i ==> #[trigger] ((n as nat) % d) != 0,
        decreases n as int + 6 - i as int,
    {
        proof {
            lemma_fundamental_div_mod(n as int, i as int);
            lemma_mod_pos_bound(n as int, i as int);
            let q: int = n as int / i as int;
            assert(i as int * (i as int) <= i as int * q) by (nonlinear_arith)
                requires
                    i as int <= q,
                    i >= 1,
            ;
            assert(i as int * (i as int) <= n as int);
            assert(i < n) by (nonlinear_arith)
                requires
                    i as int * (i as int) <= n as int,
                    i >= 5,
            ;
            assert(i < 0x1_0000_0000) by (nonlinear_arith)
                requires
                    i as int * (i as int) <= n as int,
                    n <= 0xffff_ffff_ffff_ffffu64,
                    i >= 5,
            ;
        }
        if n % i == 0 {
            assert((n as nat) % (i as nat) == 0);
            return false;
        }
        if n % (i + 2) == 0 {
            proof {
                assert(i as int + 2 < n as int) by (nonlinear_arith)
                    requires
                        i as int * (i as int) <= n as int,
                        i >= 5,
                ;
                assert((n as nat) % ((i + 2) as nat) == 0);
            }
            return false;
        }
        proof {
            lemma_sieve_step(n as nat, i as nat);
        }
        i = i + 6;
    }
    proof {
        lemma_fundamental_div_mod(n as int, i as int);
        lemma_mod_pos_bound(n as int, i as int);
        let q: int = n as int / i as int;
        assert((n as int) < (i as int) * (i as int)) by (nonlinear_arith)
            requires
                n as int == (i as int) * q + (n as int) % (i as int),
                (n as int) % (i as int) < i as int,
                q + 1 <= i as int,
                i >= 1,
        ;
        lemma_no_divisor_below_sqrt_implies_prime(n as nat, i as nat);
    }
    true
}

} // verus!
