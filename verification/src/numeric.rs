//! Powers of two and rounding on machine integers.

use vstd::arithmetic::power2::{
    is_pow2, lemma2_to64, lemma2_to64_rest, lemma_pow2_pos, lemma_pow2_strictly_increases,
    lemma_pow2_unfold, pow2,
};
use vstd::arithmetic::div_mod::{lemma_fundamental_div_mod, lemma_mod_multiples_basic};
use vstd::prelude::*;

verus! {

/// The floor of the base-two logarithm; on a power of two, its exponent.
pub open spec fn log2(n: int) -> nat
    decreases n,
{
    if n <= 1 {
        0
    } else {
        1 + log2(n / 2)
    }
}

/// `log2` inverts `pow2`.
pub proof fn lemma_log2_pow2(k: nat)
    ensures
        log2(pow2(k) as int) == k,
        is_pow2(pow2(k) as int),
    decreases k,
{
    reveal(is_pow2);
    if k == 0 {
        lemma2_to64();
    } else {
        lemma_log2_pow2((k - 1) as nat);
        lemma_pow2_unfold(k);
        lemma_pow2_pos((k - 1) as nat);
    }
}

/// `pow2` inverts `log2` on the powers of two.
pub proof fn lemma_pow2_log2(n: int)
    requires
        is_pow2(n),
    ensures
        pow2(log2(n)) == n,
        n > 0,
    decreases n,
{
    reveal(is_pow2);
    if n <= 1 {
        lemma2_to64();
    } else {
        lemma_pow2_log2(n / 2);
        lemma_pow2_unfold(log2(n));
    }
}

/// Halving a power of two takes one from its exponent.
pub proof fn lemma_log2_half(n: int)
    requires
        is_pow2(n),
        n >= 2,
    ensures
        n % 2 == 0,
        is_pow2(n / 2),
        log2(n) >= 1,
        log2(n / 2) == log2(n) - 1,
{
    reveal(is_pow2);
}

/// One is a power of two.
pub proof fn lemma_log2_one()
    ensures
        is_pow2(1),
        log2(1) == 0,
{
    reveal(is_pow2);
}

/// `log2` is the floor of the logarithm.
pub proof fn lemma_log2_bounds(n: int)
    requires
        n > 0,
    ensures
        pow2(log2(n)) <= n < pow2(log2(n) + 1),
    decreases n,
{
    lemma2_to64();
    if n > 1 {
        lemma_log2_bounds(n / 2);
        lemma_pow2_unfold(log2(n));
        lemma_pow2_unfold(log2(n) + 1);
    }
}

/// `pow2` is monotone.
pub proof fn lemma_pow2_le(a: nat, b: nat)
    requires
        a <= b,
    ensures
        0 < pow2(a) <= pow2(b),
{
    lemma_pow2_pos(a);
    if a < b {
        lemma_pow2_strictly_increases(a, b);
    }
}

/// Whether `n` is a power of two.
pub fn is_power_of_two(n: usize) -> (r: bool)
    ensures
        r == is_pow2(n as int),
{
    proof {
        reveal(is_pow2);
    }
    if n == 0 {
        return false;
    }
    let mut m: usize = n;
    while m % 2 == 0
        invariant
            0 < m <= n,
            is_pow2(m as int) == is_pow2(n as int),
        decreases m,
    {
        proof {
            reveal(is_pow2);
        }
        m = m / 2;
    }
    proof {
        reveal(is_pow2);
    }
    m == 1
}

/// The floor of the base-two logarithm.
pub fn ilog2(n: usize) -> (r: usize)
    requires
        n > 0,
    ensures
        r == log2(n as int),
        r < usize::BITS,
{
    let mut m: usize = n;
    let mut r: usize = 0;
    while m > 1
        invariant
            0 < m <= n,
            r + log2(m as int) == log2(n as int),
            r <= n - m,
        decreases m,
    {
        m = m / 2;
        r = r + 1;
    }
    proof {
        lemma_log2_bounds(n as int);
        lemma_bits_bound(r as nat, n);
    }
    r
}

/// A machine word holds no power of two beyond its width.
pub proof fn lemma_bits_bound(k: nat, n: usize)
    requires
        pow2(k) <= n,
    ensures
        k < usize::BITS,
{
    if k >= usize::BITS {
        lemma_pow2_le(usize::BITS as nat, k);
        lemma2_to64();
        assert(n <= usize::MAX);
        vstd::layout::unsigned_int_max_values();
    }
}

/// Two to the power `k`.
pub fn pow2_u64(k: usize) -> (r: u64)
    requires
        k < 64,
    ensures
        r == pow2(k as nat),
{
    let mut r: u64 = 1;
    let mut i: usize = 0;
    proof {
        lemma2_to64();
    }
    while i < k
        invariant
            i <= k < 64,
            r == pow2(i as nat),
        decreases k - i,
    {
        proof {
            lemma_pow2_unfold((i + 1) as nat);
            lemma_pow2_le((i + 1) as nat, 63);
            lemma2_to64();
            lemma2_to64_rest();
        }
        r = r * 2;
        i = i + 1;
    }
    r
}

/// The ceiling of the base-two logarithm: the least `k` with `n <= 2^k`.
pub open spec fn log2_ceil(n: int) -> nat {
    if n <= 1 {
        0
    } else {
        log2(n - 1) + 1
    }
}

/// `log2_ceil` gives the least exponent that reaches `n`.
pub proof fn lemma_log2_ceil(n: int)
    ensures
        n <= pow2(log2_ceil(n)),
        forall|k: nat| n <= #[trigger] pow2(k) ==> log2_ceil(n) <= k,
{
    lemma2_to64();
    if n > 1 {
        lemma_log2_bounds(n - 1);
        let c = log2_ceil(n);
        assert forall|k: nat| n <= #[trigger] pow2(k) implies c <= k by {
            if k < c {
                lemma_pow2_le(k, (c - 1) as nat);
            }
        }
    }
}

/// The ceiling of the base-two logarithm.
pub fn log2_ceil_usize(n: usize) -> (r: usize)
    ensures
        r == log2_ceil(n as int),
        r <= usize::BITS,
{
    if n <= 1 {
        0
    } else {
        ilog2(n - 1) + 1
    }
}

/// The least power of two that is at least `n`.
pub open spec fn next_pow2(n: int) -> int {
    pow2(log2_ceil(n)) as int
}

/// The least power of two that is at least `n`.
pub fn next_power_of_two(n: usize) -> (r: usize)
    requires
        next_pow2(n as int) <= usize::MAX,
    ensures
        r == next_pow2(n as int),
        r >= n,
{
    let k: usize = log2_ceil_usize(n);
    proof {
        lemma2_to64();
        lemma_log2_ceil(n as int);
    }
    let mut r: usize = 1;
    let mut i: usize = 0;
    while i < k
        invariant
            i <= k,
            r == pow2(i as nat),
            pow2(k as nat) <= usize::MAX,
        decreases k - i,
    {
        proof {
            lemma_pow2_unfold((i + 1) as nat);
            lemma_pow2_le((i + 1) as nat, k as nat);
        }
        r = r * 2;
        i = i + 1;
    }
    r
}

/// The least multiple of `m` that is at least `n`.
pub open spec fn round_up(n: int, m: int) -> int {
    ((n + m - 1) / m) * m
}

/// The least multiple of `m` that is at least `n`.
pub fn next_multiple_of(n: usize, m: usize) -> (r: usize)
    requires
        m > 0,
        n + m - 1 <= usize::MAX,
    ensures
        r == round_up(n as int, m as int),
        r >= n,
        r < n + m,
        r as int % m as int == 0,
{
    let s: usize = n + (m - 1);
    let q: usize = s / m;
    proof {
        let (a, b) = (s as int, m as int);
        lemma_fundamental_div_mod(a, b);
        assert(b * (a / b) == (a / b) * b) by (nonlinear_arith);
        assert(a - b < (a / b) * b <= a);
        lemma_mod_multiples_basic(a / b, b);
    }
    q * m
}

} // verus!
