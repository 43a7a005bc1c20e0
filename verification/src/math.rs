//! Powers of two and base-2 logarithms.

use vstd::prelude::*;
use vstd::arithmetic::power2::*;

verus! {

/// The ceiling of the base-2 logarithm of `n`, and 0 for `n == 0`.
pub open spec fn spec_ceil_log2(n: nat) -> nat
    decreases n,
{
    if n <= 1 {
        0
    } else {
        1 + spec_ceil_log2((n + 1) / 2)
    }
}

/// The smallest power of two that is at least `n`.
pub open spec fn spec_next_power_of_two(n: nat) -> nat {
    pow2(spec_ceil_log2(n))
}

/// `spec_ceil_log2(n)` is the least exponent whose power of two reaches `n`.
pub proof fn lemma_ceil_log2_bounds(n: nat)
    requires
        n >= 1,
    ensures
        n <= pow2(spec_ceil_log2(n)),
        spec_ceil_log2(n) > 0 ==> pow2((spec_ceil_log2(n) - 1) as nat) < n,
    decreases n,
{
    lemma2_to64();
    if n > 1 {
        let h = (n + 1) / 2;
        lemma_ceil_log2_bounds(h);
        lemma_pow2_unfold(spec_ceil_log2(n));
        if spec_ceil_log2(h) > 0 {
            lemma_pow2_unfold(spec_ceil_log2(h));
        }
    }
}

/// An exponent that brackets `n` between two neighbouring powers of two is
/// the ceiling of its logarithm.
pub proof fn lemma_ceil_log2_unique(n: nat, k: nat)
    requires
        n >= 1,
        n <= pow2(k),
        k > 0 ==> pow2((k - 1) as nat) < n,
    ensures
        k == spec_ceil_log2(n),
{
    let l = spec_ceil_log2(n);
    lemma_ceil_log2_bounds(n);
    if k < l {
        if k < l - 1 {
            lemma_pow2_strictly_increases(k, (l - 1) as nat);
        }
    } else if l < k {
        if l < k - 1 {
            lemma_pow2_strictly_increases(l, (k - 1) as nat);
        }
    }
}

/// The logarithm of a power of two is its exponent.
pub proof fn lemma_ceil_log2_pow2(k: nat)
    ensures
        spec_ceil_log2(pow2(k)) == k,
{
    lemma_pow2_pos(k);
    if k > 0 {
        lemma_pow2_strictly_increases((k - 1) as nat, k);
    }
    lemma_ceil_log2_unique(pow2(k), k);
}

/// No power of two that reaches `n` is below the next power of two of `n`.
pub proof fn lemma_next_power_of_two_least(n: nat, k: nat)
    requires
        n <= pow2(k),
    ensures
        spec_next_power_of_two(n) <= pow2(k),
{
    let l = spec_ceil_log2(n);
    if n >= 1 {
        lemma_ceil_log2_bounds(n);
        if l > k {
            if k < l - 1 {
                lemma_pow2_strictly_increases(k, (l - 1) as nat);
            }
        } else if l < k {
            lemma_pow2_strictly_increases(l, k);
        }
    } else {
        lemma_pow2_pos(k);
        lemma2_to64();
    }
}

/// The smallest power of two that is at least `n`; 1 for `n == 0`.
pub fn next_power_of_two(n: usize) -> (p: usize)
    requires
        n <= usize::MAX / 2 + 1,
    ensures
        p == spec_next_power_of_two(n as nat),
        p >= 1,
        n <= p,
{
    let mut p: usize = 1;
    let ghost mut k: nat = 0;
    proof {
        lemma2_to64();
    }
    while p < n
        invariant
            n <= usize::MAX / 2 + 1,
            p == pow2(k),
            p >= 1,
            k > 0 ==> pow2((k - 1) as nat) < n,
        decreases usize::MAX - p,
    {
        proof {
            lemma_pow2_unfold(k + 1);
        }
        p = p * 2;
        proof {
            k = k + 1;
        }
    }
    proof {
        if n >= 1 {
            lemma_ceil_log2_unique(n as nat, k);
        } else {
            lemma2_to64();
        }
    }
    p
}

/// The ceiling of the base-2 logarithm of `n`.
pub fn log_2(n: usize) -> (k: usize)
    requires
        n >= 1,
    ensures
        k == spec_ceil_log2(n as nat),
        k <= usize::BITS,
{
    let mut k: usize = 0;
    let mut rest: usize = n - 1;
    // `rest` holds (n - 1) / 2^k: the exponent grows until nothing is left.
    proof {
        lemma2_to64();
    }
    while rest > 0
        invariant
            n >= 1,
            k <= usize::BITS,
            rest == (n - 1) as nat / pow2(k as nat),
            rest > 0 ==> k < usize::BITS,
            k > 0 ==> pow2((k - 1) as nat) < n,
        decreases rest,
    {
        proof {
            lemma_log2_step((n - 1) as nat, k as nat);
            if rest / 2 > 0 {
                lemma_shift_fits((n - 1) as nat, (k + 1) as nat);
            }
        }
        rest = rest / 2;
        k = k + 1;
    }
    proof {
        lemma_pow2_pos(k as nat);
        if n - 1 >= pow2(k as nat) {
            vstd::arithmetic::div_mod::lemma_div_non_zero((n - 1) as int, pow2(k as nat) as int);
        }
        lemma_ceil_log2_unique(n as nat, k as nat);
    }
    k
}

/// Halving the quotient by `2^k` gives the quotient by `2^(k+1)`; while the
/// quotient is positive, `2^k` is below `x + 1`.
proof fn lemma_log2_step(x: nat, k: nat)
    ensures
        (x / pow2(k)) / 2 == x / pow2(k + 1),
        x / pow2(k) > 0 ==> pow2(k) < x + 1,
{
    lemma_pow2_pos(k);
    lemma_pow2_unfold(k + 1);
    vstd::arithmetic::div_mod::lemma_div_denominator(x as int, pow2(k) as int, 2);
    vstd::arithmetic::div_mod::lemma_fundamental_div_mod(x as int, pow2(k) as int);
    vstd::arithmetic::div_mod::lemma_mod_bound(x as int, pow2(k) as int);
    if x / pow2(k) > 0 {
        assert(pow2(k) * (x / pow2(k)) >= pow2(k)) by (nonlinear_arith)
            requires
                x / pow2(k) >= 1,
                pow2(k) > 0,
        ;
    }
}

/// A machine word whose quotient by `2^k` is positive has more than `k` bits.
proof fn lemma_shift_fits(x: nat, k: nat)
    requires
        x <= usize::MAX,
        x / pow2(k) > 0,
    ensures
        k < usize::BITS,
{
    lemma_log2_step(x, k);
    lemma2_to64();
    if k >= usize::BITS {
        if k > usize::BITS {
            lemma_pow2_strictly_increases(usize::BITS as nat, k);
        }
        assert(pow2(32) == 0x1_0000_0000);
        assert(pow2(64) == 0x1_0000_0000_0000_0000);
    }
}

/// `2^k`, for `k` below the width of a machine word.
pub fn pow2_usize(k: usize) -> (n: usize)
    requires
        k < usize::BITS,
    ensures
        n == pow2(k as nat),
{
    let mut n: usize = 1;
    let mut i: usize = 0;
    proof {
        lemma2_to64();
    }
    while i < k
        invariant
            i <= k,
            k < usize::BITS,
            n == pow2(i as nat),
        decreases k - i,
    {
        proof {
            lemma_pow2_unfold((i + 1) as nat);
            vstd::bits::lemma_usize_pow2_no_overflow((i + 1) as nat);
        }
        n = n * 2;
        i += 1;
    }
    n
}

/// A power of two with an exponent of the width of a machine word or more
/// does not fit the word.
pub proof fn lemma_pow2_too_large(k: nat)
    requires
        k >= usize::BITS,
    ensures
        pow2(k) > usize::MAX,
{
    lemma2_to64();
    lemma2_to64_rest();
    if k > usize::BITS {
        lemma_pow2_strictly_increases(usize::BITS as nat, k);
    }
}

/// The ceiling of the base-2 logarithm of `x`, as `ark_std::log2` computes
/// it: 0 for 0 and 1, and otherwise the least exponent whose power of two
/// reaches `x`.
#[verifier::external_body]
pub(crate) fn ceil_log2(x: usize) -> (r: usize)
    ensures
        r == spec_ceil_log2(x as nat),
        r <= usize::BITS,
{
    ark_std::log2(x) as usize
}

} // verus!
