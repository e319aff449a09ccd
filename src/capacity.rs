//! The arithmetic of chunk growth.

use vstd::prelude::*;

verus! {

/// `2` to the power `k`.
pub open spec fn pow2(k: nat) -> nat
    decreases k,
{
    if k == 0 {
        1
    } else {
        2 * pow2((k - 1) as nat)
    }
}

/// The least `k` with `n <= 2^k`.
pub open spec fn ceil_log2(n: nat) -> nat
    decreases n,
{
    if n <= 1 {
        0
    } else {
        1 + ceil_log2(((n + 1) / 2) as nat)
    }
}

/// The smallest power of two that is at least `n` (`1` for `0`).
pub open spec fn next_pow2(n: nat) -> nat {
    pow2(ceil_log2(n))
}

/// The capacity of the chunk that replaces one of capacity `cap` when a batch of
/// `n` elements does not fit: twice the old capacity, or the power of two that
/// holds the whole batch, whichever is larger.
pub open spec fn grown_capacity(cap: nat, n: nat) -> nat {
    if 2 * cap >= next_pow2(n) {
        2 * cap
    } else {
        next_pow2(n)
    }
}

/// Both candidates for the grown capacity fit in a `usize`.
pub open spec fn growth_fits(cap: nat, n: nat) -> bool {
    2 * cap <= usize::MAX && next_pow2(n) <= usize::MAX
}

pub proof fn lemma_pow2_positive(k: nat)
    ensures
        pow2(k) >= 1,
    decreases k,
{
    if k > 0 {
        lemma_pow2_positive((k - 1) as nat);
    }
}

pub proof fn lemma_pow2_monotonic(a: nat, b: nat)
    requires
        a <= b,
    ensures
        pow2(a) <= pow2(b),
    decreases b,
{
    if a < b {
        lemma_pow2_monotonic(a, (b - 1) as nat);
        lemma_pow2_positive((b - 1) as nat);
    }
}

/// The next power of two is at least the number itself.
pub proof fn lemma_next_pow2_at_least(n: nat)
    ensures
        next_pow2(n) >= n,
        next_pow2(n) >= 1,
    decreases n,
{
    lemma_pow2_positive(ceil_log2(n));
    if n > 1 {
        let m = ((n + 1) / 2) as nat;
        lemma_next_pow2_at_least(m);
    }
}

/// A power of two that holds `n`, and whose half does not, is the next power
/// of two of `n`.
proof fn lemma_least_power(n: nat, k: nat)
    requires
        pow2(k) >= n,
        k == 0 || pow2((k - 1) as nat) < n,
    ensures
        ceil_log2(n) == k,
    decreases k,
{
    if k > 0 {
        lemma_pow2_positive((k - 1) as nat);
        let m = ((n + 1) / 2) as nat;
        if k >= 2 {
            assert(pow2((k - 1) as nat) == 2 * pow2((k - 2) as nat));
        }
        lemma_least_power(m, (k - 1) as nat);
    }
}

/// Computes the smallest power of two that is at least `n`, or `None` where it
/// does not fit in a `usize`.
pub fn checked_next_power_of_two(n: usize) -> (r: Option<usize>)
    ensures
        r matches Some(p) ==> p as nat == next_pow2(n as nat),
        r is None ==> next_pow2(n as nat) > usize::MAX,
{
    let mut p: usize = 1;
    let ghost mut k: nat = 0;
    while p < n
        invariant
            p as nat == pow2(k),
            p >= 1,
            k == 0 || pow2((k - 1) as nat) < n,
        decreases usize::MAX - p,
    {
        proof {
            lemma_next_pow2_at_least(n as nat);
            if ceil_log2(n as nat) <= k {
                lemma_pow2_monotonic(ceil_log2(n as nat), k);
            }
            lemma_pow2_monotonic(k + 1, ceil_log2(n as nat));
        }
        if p > usize::MAX / 2 {
            return None;
        }
        p = p * 2;
        proof {
            k = k + 1;
        }
    }
    proof {
        lemma_least_power(n as nat, k);
    }
    Some(p)
}

/// Computes the smallest power of two that is at least `n`.
pub fn next_power_of_two(n: usize) -> (r: usize)
    requires
        next_pow2(n as nat) <= usize::MAX,
    ensures
        r as nat == next_pow2(n as nat),
{
    match checked_next_power_of_two(n) {
        Some(p) => p,
        None => vstd::pervasive::unreached(),
    }
}

} // verus!
