use vstd::prelude::*;

verus! {

use crate::primality::{is_prime, is_prime_spec};
use crate::mersenne::{is_mersenne_prime, mersenne_prime_test};

/// The exponents in [start, end] that pass the trial-division filter,
/// in ascending order.
pub fn prime_exponents_in_range(start: u64, end: u64) -> (r: Vec<u64>)
    ensures
        forall|k: int|
            0 <= k < r@.len() ==> start <= #[trigger] r@[k] <= end && is_prime_spec(r@[k] as nat),
        forall|q: u64| start <= q <= end && is_prime_spec(q as nat) ==> r@.contains(q),
        forall|k1: int, k2: int| 0 <= k1 < k2 < r@.len() ==> r@[k1] < r@[k2],
{
    let mut out: Vec<u64> = Vec::new();
    if start > end {
        return out;
    }
    let mut q: u64 = start;
    let mut done: bool = false;
    while !done
        invariant
            start <= q <= end,
            forall|k: int|
                0 <= k < out@.len() ==> start <= #[trigger] out@[k] <= end && is_prime_spec(
                    out@[k] as nat,
                ),
            forall|k: int|
                0 <= k < out@.len() ==> (out@[k] as int) < (if done {
                    end as int + 1
                } else {
                    q as int
                }),
            forall|x: u64|
                start <= x <= end && (x as int) < (if done {
                    end as int + 1
                } else {
                    q as int
                }) && is_prime_spec(x as nat) ==> out@.contains(x),
            forall|k1: int, k2: int| 0 <= k1 < k2 < out@.len() ==> out@[k1] < out@[k2],
        decreases end as int + 1 - (if done {
            end as int + 1
        } else {
            q as int
        }),
    {
        let ghost old_out = out@;
        if is_prime(q) {
            out.push(q);
            proof {
                assert(out@ == old_out.push(q));
                assert forall|x: u64| old_out.contains(x) implies out@.contains(x) by {
                    let j = choose|j: int| 0 <= j < old_out.len() && old_out[j] == x;
                    assert(out@[j] == x);
                }
                assert(out@[out@.len() - 1] == q);
                assert(out@.contains(q));
            }
        } else {
            proof {
                assert(!is_prime_spec(q as nat));
            }
        }
        if q == end {
            done = true;
        } else {
            q = q + 1;
        }
    }
    out
}

/// The exponents in [start, end] that pass the trial-division filter and
/// whose Mersenne number passes the Lucas-Lehmer test, in ascending order.
/// Each test is independent of the others, so callers may equally run
/// them out of order and sort the answers; this sequential form is the
/// reference behaviour.
pub fn mersenne_prime_exponents(start: u64, end: u64, verbose: bool) -> (r: Vec<u64>)
    ensures
        forall|k: int|
            0 <= k < r@.len() ==> start <= #[trigger] r@[k] <= end && is_prime_spec(r@[k] as nat)
                && mersenne_prime_test(r@[k] as nat),
        forall|q: u64|
            start <= q <= end && is_prime_spec(q as nat) && mersenne_prime_test(q as nat)
                ==> r@.contains(q),
        forall|k1: int, k2: int| 0 <= k1 < k2 < r@.len() ==> r@[k1] < r@[k2],
{
    let ps = prime_exponents_in_range(start, end);
    let mut out: Vec<u64> = Vec::new();
    let mut idx: usize = 0;
    while idx < ps.len()
        invariant
            idx <= ps@.len(),
            forall|k: int|
                0 <= k < ps@.len() ==> start <= #[trigger] ps@[k] <= end && is_prime_spec(
                    ps@[k] as nat,
                ),
            forall|q: u64| start <= q <= end && is_prime_spec(q as nat) ==> ps@.contains(q),
            forall|k1: int, k2: int| 0 <= k1 < k2 < ps@.len() ==> ps@[k1] < ps@[k2],
            forall|k: int|
                0 <= k < out@.len() ==> start <= #[trigger] out@[k] <= end && is_prime_spec(
                    out@[k] as nat,
                ) && mersenne_prime_test(out@[k] as nat),
            forall|j: int|
                0 <= j < idx && mersenne_prime_test(ps@[j] as nat) ==> out@.contains(ps@[j]),
            forall|k: int| 0 <= k < out@.len() ==> idx >= 1 && out@[k] <= ps@[idx - 1],
            forall|k1: int, k2: int| 0 <= k1 < k2 < out@.len() ==> out@[k1] < out@[k2],
        decreases ps@.len() - idx,
    {
        let p = ps[idx];
        let ghost old_out = out@;
        if is_mersenne_prime(p, verbose) {
            out.push(p);
            proof {
                assert(out@ == old_out.push(p));
                assert forall|x: u64| old_out.contains(x) implies out@.contains(x) by {
                    let j = choose|j: int| 0 <= j < old_out.len() && old_out[j] == x;
                    assert(out@[j] == x);
                }
                assert(out@[out@.len() - 1] == p);
                assert(out@.contains(p));
            }
        }
        idx = idx + 1;
    }
    proof {
        assert forall|q: u64|
            start <= q <= end && is_prime_spec(q as nat) && mersenne_prime_test(q as nat)
            implies out@.contains(q) by {
            assert(ps@.contains(q));
            let j = choose|j: int| 0 <= j < ps@.len() && ps@[j] == q;
            assert(mersenne_prime_test(ps@[j] as nat));
            assert(out@.contains(ps@[j]));
        }
    }
    out
}

} // verus!
