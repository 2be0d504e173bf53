//! The two-adic subgroups have distinct elements, and the modulus is prime.

use crate::field::{
    fmul, fpow, lemma_fmul_one, lemma_fpow_add, lemma_fpow_mul, lemma_fpow_range,
    lemma_root_order, two_adic_root, P, TWO_ADICITY,
};
use crate::numeric::lemma_pow2_le;
use vstd::arithmetic::div_mod::{
    lemma_add_mod_noop, lemma_fundamental_div_mod_converse_mod, lemma_mod_mod,
    lemma_mod_multiples_basic, lemma_mul_mod_noop_general, lemma_small_mod, lemma_sub_mod_noop,
};
use vstd::arithmetic::power2::{lemma2_to64, lemma_pow2_adds, lemma_pow2_unfold, pow2};
use vstd::prelude::*;
use vstd::set_lib::{lemma_int_range, lemma_len_subset, set_int_range};

verus! {

/// `d` divides the modulus, with cofactor `e`.
spec fn divides_p(d: int, e: int) -> bool {
    d >= 1 && e >= 1 && d * e == P
}

/// Multiplication modulo `P` is multiplication modulo a divisor of `P`.
proof fn lemma_fmul_mod(d: int, e: int, a: int, b: int)
    requires
        divides_p(d, e),
    ensures
        fmul(a, b) % d == ((a % d) * (b % d)) % d,
{
    reveal(fmul);
    lemma_mod_mod(a * b, d, e);
    lemma_mul_mod_noop_general(a, b, d);
}

proof fn lemma_fpow_unit_mod(d: int, e: int, a: int, n: nat)
    requires
        divides_p(d, e),
        d > 1,
        a % d == 1,
    ensures
        fpow(a, n) % d == 1,
    decreases n,
{
    lemma_small_mod(1, d as nat);
    if n > 0 {
        lemma_fpow_unit_mod(d, e, a, (n - 1) as nat);
        lemma_fmul_mod(d, e, a, fpow(a, (n - 1) as nat));
    }
}

/// An odd power of -1 is -1.
proof fn lemma_odd_power(n: nat)
    ensures
        n % 2 == 1 ==> fpow(P - 1, n) == P - 1,
        n % 2 == 0 ==> fpow(P - 1, n) == 1,
    decreases n,
{
    if n > 0 {
        lemma_odd_power((n - 1) as nat);
        reveal(fmul);
        assert((P - 1) * (P - 1) == (P - 2) * P + 1) by (nonlinear_arith);
        lemma_fundamental_div_mod_converse_mod(
            (P - 1) * (P - 1),
            P as int,
            P - 2,
            1,
        );
        assert((P - 1) * 1 == P - 1);
    }
}

/// Every positive number is a power of two times an odd number.
proof fn lemma_odd_part(k: nat) -> (r: (nat, nat))
    requires
        k > 0,
    ensures
        k == pow2(r.0) * r.1,
        r.1 % 2 == 1,
    decreases k,
{
    if k % 2 == 1 {
        lemma2_to64();
        assert(pow2(0) * k == k);
        (0, k)
    } else {
        let (t, u) = lemma_odd_part(k / 2);
        lemma_pow2_unfold(t + 1);
        assert(2 * (pow2(t) * u) == (2 * pow2(t)) * u) by (nonlinear_arith);
        (t + 1, u)
    }
}

/// No power of a generator below its order is 1, not even modulo a divisor of `P`.
proof fn lemma_power_not_one(d: int, e: int, bits: nat, k: nat)
    requires
        divides_p(d, e),
        d > 2,
        bits <= TWO_ADICITY,
        0 < k < pow2(bits),
    ensures
        fpow(two_adic_root(bits), k) % d != 1,
{
    let g = two_adic_root(bits);
    if fpow(g, k) % d == 1 {
        lemma2_to64();
        let (t, u) = lemma_odd_part(k);
        if t >= bits {
            lemma_pow2_le(bits, t);
            assert(pow2(t) * u >= pow2(t)) by (nonlinear_arith)
                requires
                    u >= 1,
            ;
        }
        let s = (bits - 1 - t) as nat;
        let top = pow2((bits - 1) as nat);
        lemma_pow2_adds(t, s);
        assert((pow2(t) * u) * pow2(s) == (pow2(t) * pow2(s)) * u) by (nonlinear_arith);
        assert(k * pow2(s) == top * u);
        lemma_fpow_mul(g, k, pow2(s));
        lemma_fpow_mul(g, top, u);
        lemma_root_order(bits);
        lemma_odd_power(u);
        lemma_fpow_unit_mod(d, e, fpow(g, k), pow2(s));
        assert((P - 1) % d == 1);
        lemma_mod_multiples_basic(e, d);
        assert(e * d == P) by (nonlinear_arith)
            requires
                d * e == P,
        ;
        assert(P as int % d == 0);
        lemma_sub_mod_noop(P as int, P - 1, d);
        assert(1int % d == (0 - 1) % d);
        lemma_add_mod_noop(-1, 2, d);
        lemma_small_mod(1, d as nat);
        lemma_fundamental_div_mod_converse_mod(-1, d, -1, d - 1);
        assert(false);
    }
}

/// Two powers of a generator with exponents below its order differ, even modulo a
/// divisor of `P`.
proof fn lemma_powers_distinct_mod(d: int, e: int, bits: nat, i: nat, j: nat)
    requires
        divides_p(d, e),
        d > 2,
        bits <= TWO_ADICITY,
        i < j < pow2(bits),
    ensures
        fpow(two_adic_root(bits), i) % d != fpow(two_adic_root(bits), j) % d,
{
    let g = two_adic_root(bits);
    let (x, y) = (fpow(g, i), fpow(g, j));
    if x % d == y % d {
        let n = pow2(bits);
        let c = (n - i) as nat;
        let k = (j - i) as nat;
        lemma_fpow_add(g, i, c);
        lemma_fpow_add(g, j, c);
        lemma_fpow_add(g, k, n);
        lemma_root_order(bits);
        assert(i + c == n && j + c == k + n);
        lemma_fpow_range(g, k);
        lemma_fmul_one(fpow(g, k));
        lemma_fmul_mod(d, e, x, fpow(g, c));
        lemma_fmul_mod(d, e, y, fpow(g, c));
        lemma_small_mod(1, d as nat);
        lemma_power_not_one(d, e, bits, k);
    }
}

/// The elements `1, g, g^2, ..` of a two-adic subgroup are distinct.
pub proof fn lemma_powers_distinct(bits: nat, i: nat, j: nat)
    requires
        bits <= TWO_ADICITY,
        i < j < pow2(bits),
    ensures
        fpow(two_adic_root(bits), i) != fpow(two_adic_root(bits), j),
{
    lemma_powers_distinct_mod(P as int, 1, bits, i, j);
}

/// A divisor above two has at least 2^24 residues.
proof fn lemma_divisor_large(d: int, e: int)
    requires
        divides_p(d, e),
        d > 2,
    ensures
        d >= pow2(24),
{
    let g = two_adic_root(24);
    let s = Seq::new(pow2(24), |i: int| fpow(g, i as nat) % d);
    assert(s.no_duplicates()) by {
        assert forall|i: int, j: int|
            0 <= i < s.len() && 0 <= j < s.len() && i != j implies s[i] != s[j] by {
            if i < j {
                lemma_powers_distinct_mod(d, e, 24, i as nat, j as nat);
            } else {
                lemma_powers_distinct_mod(d, e, 24, j as nat, i as nat);
            }
        }
    }
    s.unique_seq_to_set();
    lemma_int_range(0, d);
    assert(s.to_set().subset_of(set_int_range(0, d))) by {
        assert forall|x: int| s.to_set().contains(x) implies set_int_range(0, d).contains(x) by {
            let i = choose|i: int| 0 <= i < s.len() && s[i] == x;
            assert(s[i] == fpow(g, i as nat) % d);
        }
    }
    lemma_len_subset(s.to_set(), set_int_range(0, d));
}

/// The modulus is prime.
pub proof fn lemma_p_prime(d: int, e: int)
    requires
        d >= 1,
        e >= 1,
        d * e == P,
    ensures
        d == 1 || d == P,
{
    if d > 1 && e > 1 {
        assert(d != 2 && e != 2) by {
            assert(P as int % 2 == 1);
            if d == 2 {
                assert(2 * e == P);
            }
            if e == 2 {
                assert(d * 2 == P);
            }
        }
        assert(e * d == P) by (nonlinear_arith)
            requires
                d * e == P,
        ;
        lemma_divisor_large(d, e);
        lemma_divisor_large(e, d);
        lemma2_to64();
        assert(d * e >= 0x1000000 * 0x1000000) by (nonlinear_arith)
            requires
                d >= 0x1000000,
                e >= 0x1000000,
        ;
    } else if e == 1 {
        assert(d * 1 == d);
    }
}

} // verus!
