//! The KoalaBear prime field: integers modulo 2^31 - 2^24 + 1.
//!
//! An element is modelled by its canonical representative, an integer in
//! `0..P`, and the operations by arithmetic modulo `P`.

use vstd::arithmetic::div_mod::{
    lemma_add_mod_noop, lemma_add_mod_noop_right, lemma_fundamental_div_mod,
    lemma_fundamental_div_mod_converse_mod,     lemma_mul_mod_noop_left,
    lemma_mul_mod_noop_right, lemma_small_mod, lemma_sub_mod_noop,
};
use vstd::arithmetic::mul::{
    lemma_mul_is_associative, lemma_mul_is_commutative, lemma_mul_is_distributive_add,
    lemma_mul_is_distributive_sub,
};
use vstd::arithmetic::power2::{lemma2_to64, lemma_pow2_unfold, pow2};
use vstd::prelude::*;

verus! {

/// The modulus 2^31 - 2^24 + 1.
pub const P: u32 = 2130706433;

/// The multiplicative group has 2^24 * 127 elements.
pub const TWO_ADICITY: usize = 24;

/// A generator of the subgroup of order 2^24.
pub const TWO_ADIC_ROOT: u32 = 0x6ac49f88;

/// Sum modulo `P`.
#[verifier::opaque]
pub open spec fn fadd(a: int, b: int) -> int {
    (a + b) % (P as int)
}

/// Difference modulo `P`.
#[verifier::opaque]
pub open spec fn fsub(a: int, b: int) -> int {
    (a - b) % (P as int)
}

/// Product modulo `P`.
#[verifier::opaque]
pub open spec fn fmul(a: int, b: int) -> int {
    (a * b) % (P as int)
}

/// Additive inverse modulo `P`.
pub open spec fn fneg(a: int) -> int {
    fsub(0, a)
}

/// Power modulo `P`.
pub open spec fn fpow(a: int, n: nat) -> int
    decreases n,
{
    if n == 0 {
        1
    } else {
        fmul(a, fpow(a, (n - 1) as nat))
    }
}

/// The multiplicative inverse of a nonzero element.
pub open spec fn finv(a: int) -> int {
    choose|b: int| canonical(b) && fmul(b, a) == 1
}

/// Canonical representatives.
pub open spec fn canonical(a: int) -> bool {
    0 <= a < P
}

/// A generator of the subgroup of order `2^bits`.
pub open spec fn two_adic_root(bits: nat) -> int
    decreases TWO_ADICITY - bits,
{
    if bits >= TWO_ADICITY {
        TWO_ADIC_ROOT as int
    } else {
        fmul(two_adic_root(bits + 1), two_adic_root(bits + 1))
    }
}

pub proof fn lemma_f_range(a: int, b: int)
    ensures
        canonical(fadd(a, b)),
        canonical(fsub(a, b)),
        canonical(fmul(a, b)),
{
    reveal(fadd);
    reveal(fsub);
    reveal(fmul);
}

pub proof fn lemma_fadd_comm(a: int, b: int)
    ensures
        fadd(a, b) == fadd(b, a),
{
    reveal(fadd);
}

pub proof fn lemma_fadd_assoc(a: int, b: int, c: int)
    ensures
        fadd(fadd(a, b), c) == fadd(a, fadd(b, c)),
{
    reveal(fadd);
    lemma_add_mod_noop(a + b, c, P as int);
    lemma_add_mod_noop_right(c, a + b, P as int);
    lemma_add_mod_noop_right(a, b + c, P as int);
}

pub proof fn lemma_fadd_zero(a: int)
    requires
        canonical(a),
    ensures
        fadd(a, 0) == a,
        fadd(0, a) == a,
{
    reveal(fadd);
}

pub proof fn lemma_fsub_is_add_neg(a: int, b: int)
    ensures
        fsub(a, b) == fadd(a, fneg(b)),
        fsub(a, b) == fadd(a, fmul(P - 1, b)),
        fneg(b) == fmul(P - 1, b),
{
    reveal(fadd);
    reveal(fsub);
    reveal(fmul);
    lemma_add_mod_noop_right(a, -b, P as int);
    assert((P - 1) * b == P * b - b) by (nonlinear_arith);
    vstd::arithmetic::div_mod::lemma_mod_multiples_vanish(b, -b, P as int);
}

pub proof fn lemma_fmul_comm(a: int, b: int)
    ensures
        fmul(a, b) == fmul(b, a),
{
    reveal(fmul);
    lemma_mul_is_commutative(a, b);
}

pub proof fn lemma_fmul_assoc(a: int, b: int, c: int)
    ensures
        fmul(fmul(a, b), c) == fmul(a, fmul(b, c)),
{
    reveal(fmul);
    lemma_mul_mod_noop_left(a * b, c, P as int);
    lemma_mul_mod_noop_right(a, b * c, P as int);
    lemma_mul_is_associative(a, b, c);
}

pub proof fn lemma_fmul_one(a: int)
    requires
        canonical(a),
    ensures
        fmul(a, 1) == a,
        fmul(1, a) == a,
{
    reveal(fmul);
}

pub proof fn lemma_fmul_zero(a: int)
    ensures
        fmul(a, 0) == 0,
        fmul(0, a) == 0,
{
    reveal(fmul);
}

pub proof fn lemma_fmul_dist(a: int, b: int, c: int)
    ensures
        fmul(a, fadd(b, c)) == fadd(fmul(a, b), fmul(a, c)),
{
    reveal(fmul);
    reveal(fadd);
    lemma_mul_mod_noop_right(a, b + c, P as int);
    lemma_mul_is_distributive_add(a, b, c);
    lemma_add_mod_noop(a * b, a * c, P as int);
}

pub proof fn lemma_fmul_dist_sub(a: int, b: int, c: int)
    ensures
        fmul(a, fsub(b, c)) == fsub(fmul(a, b), fmul(a, c)),
{
    reveal(fmul);
    reveal(fsub);
    lemma_mul_mod_noop_right(a, b - c, P as int);
    lemma_mul_is_distributive_sub(a, b, c);
    lemma_sub_mod_noop(a * b, a * c, P as int);
}

pub proof fn lemma_fpow_range(a: int, n: nat)
    ensures
        canonical(fpow(a, n)),
{
    if n > 0 {
        lemma_f_range(a, fpow(a, (n - 1) as nat));
    }
}

pub proof fn lemma_fpow_one(a: int)
    requires
        canonical(a),
    ensures
        fpow(a, 1) == a,
{
    reveal_with_fuel(fpow, 2);
    lemma_fmul_one(a);
}

pub proof fn lemma_fpow_add(a: int, m: nat, n: nat)
    ensures
        fpow(a, m + n) == fmul(fpow(a, m), fpow(a, n)),
    decreases m,
{
    lemma_fpow_range(a, n);
    if m == 0 {
        lemma_fmul_one(fpow(a, n));
    } else {
        lemma_fpow_add(a, (m - 1) as nat, n);
        lemma_fmul_assoc(a, fpow(a, (m - 1) as nat), fpow(a, n));
        assert((m + n - 1) as nat == (m - 1) as nat + n);
    }
}

pub proof fn lemma_fpow_mul(a: int, m: nat, n: nat)
    ensures
        fpow(a, m * n) == fpow(fpow(a, m), n),
    decreases n,
{
    if n == 0 {
        assert(m * n == 0) by (nonlinear_arith)
            requires
                n == 0,
        ;
    } else {
        lemma_fpow_mul(a, m, (n - 1) as nat);
        assert(m * n == m + m * (n - 1)) by (nonlinear_arith);
        assert(m * (n - 1) >= 0) by (nonlinear_arith)
            requires
                n > 0,
        ;
        lemma_fpow_add(a, m, (m * (n - 1)) as nat);
    }
}

pub proof fn lemma_fpow_base_one(n: nat)
    ensures
        fpow(1, n) == 1,
    decreases n,
{
    if n > 0 {
        lemma_fpow_base_one((n - 1) as nat);
        lemma_fmul_one(1);
    }
}

pub proof fn lemma_fpow_of_mul(a: int, b: int, n: nat)
    ensures
        fpow(fmul(a, b), n) == fmul(fpow(a, n), fpow(b, n)),
    decreases n,
{
    if n == 0 {
        lemma_fmul_one(1);
    } else {
        let m = (n - 1) as nat;
        let (x, y) = (fpow(a, m), fpow(b, m));
        lemma_fpow_of_mul(a, b, m);
        lemma_fmul_swap(a, b, x, y);
    }
}

/// `(a b)(x y) = (a x)(b y)`.
pub proof fn lemma_fmul_swap(a: int, b: int, x: int, y: int)
    ensures
        fmul(fmul(a, b), fmul(x, y)) == fmul(fmul(a, x), fmul(b, y)),
{
    lemma_fmul_assoc(a, b, fmul(x, y));
    lemma_fmul_assoc(b, x, y);
    lemma_fmul_comm(b, x);
    lemma_fmul_assoc(x, b, y);
    lemma_fmul_assoc(a, x, fmul(b, y));
}

/// For `1 < x < P`, with `q` and `r` the quotient and remainder of `P` by `x`, the
/// remainder is positive and is the product of `-q` and `x`.
proof fn lemma_inverse_step(x: int)
    requires
        1 < x < P,
    ensures
        0 < P as int % x < x,
        fmul(fneg(P as int / x), x) == P as int % x,
        0 <= P as int / x < P,
{
    let m = P as int;
    let q = m / x;
    let r = m % x;
    lemma_fundamental_div_mod(m, x);
    assert(0 < q < m) by (nonlinear_arith)
        requires
            m == x * q + r,
            1 < x < m,
            0 <= r < x,
    ;
    if r == 0 {
        crate::roots::lemma_p_prime(x, q);
    }
    lemma_fsub_is_add_neg(0, q);
    lemma_fmul_assoc(m - 1, q, x);
    lemma_fsub_is_add_neg(0, fmul(q, x));
    lemma_mul_is_commutative(q, x);
    reveal(fmul);
    reveal(fsub);
    lemma_sub_mod_noop(0, q * x, m);
    lemma_small_mod(0, m as nat);
    assert(0 - q * x == r - m);
    vstd::arithmetic::div_mod::lemma_mod_multiples_vanish(-1, r, m);
    lemma_small_mod(r as nat, m as nat);
}

/// Every nonzero element has an inverse.
pub proof fn lemma_finv(a: int)
    requires
        0 < a < P,
    ensures
        canonical(finv(a)),
        fmul(finv(a), a) == 1,
{
    lemma_inverse_exists(a);
}

proof fn lemma_inverse_exists(a: int)
    requires
        0 < a < P,
    ensures
        exists|b: int| canonical(b) && fmul(b, a) == 1,
    decreases a,
{
    if a == 1 {
        lemma_fmul_one(1);
        assert(canonical(1) && fmul(1, a) == 1);
    } else {
        let r = P as int % a;
        let n = fneg(P as int / a);
        lemma_inverse_step(a);
        lemma_inverse_exists(r);
        let c = choose|c: int| canonical(c) && fmul(c, r) == 1;
        lemma_fmul_assoc(c, n, a);
        lemma_f_range(c, n);
        assert(canonical(fmul(c, n)) && fmul(fmul(c, n), a) == 1);
    }
}

/// An element has at most one inverse.
pub proof fn lemma_finv_unique(a: int, b: int)
    requires
        canonical(b),
        fmul(b, a) == 1,
    ensures
        b == finv(a),
{
    let c = finv(a);
    assert(canonical(c) && fmul(c, a) == 1);
    lemma_fmul_one(b);
    lemma_fmul_one(c);
    lemma_fmul_comm(c, a);
    lemma_fmul_assoc(b, a, c);
}

pub proof fn lemma_root_range(bits: nat)
    ensures
        canonical(two_adic_root(bits)),
{
    if bits < TWO_ADICITY {
        lemma_f_range(two_adic_root(bits + 1), two_adic_root(bits + 1));
    }
}

/// One squaring, with the quotient by `P` given.
proof fn lemma_root_step(bits: nat, g: int, q: int, h: int)
    requires
        bits < TWO_ADICITY,
        two_adic_root(bits + 1) == g,
        g * g == q * (P as int) + h,
        canonical(h),
    ensures
        two_adic_root(bits) == h,
{
    reveal(fmul);
    lemma_fundamental_div_mod_converse_mod(g * g, P as int, q, h);
}

/// The two smallest generators are 1 and -1.
pub proof fn lemma_root_base()
    ensures
        two_adic_root(0) == 1,
        two_adic_root(1) == P - 1,
{
    lemma_root_step(23, 0x6ac49f88, 1505909495, 0x68e7dd49);
    lemma_root_step(22, 0x68e7dd49, 1453832974, 0x205d63c3);
    lemma_root_step(21, 0x205d63c3, 138376430, 0x484ef19b);
    lemma_root_step(20, 0x484ef19b, 690706220, 0x514ddcad);
    lemma_root_step(19, 0x514ddcad, 873256016, 0x143ef899);
    lemma_root_step(18, 0x143ef899, 54149420, 0x6c4a8a45);
    lemma_root_step(17, 0x6c4a8a45, 1549181440, 0x163bd499);
    lemma_root_step(16, 0x163bd499, 65304055, 0x6e2f4d7a);
    lemma_root_step(15, 0x6e2f4d7a, 1603833795, 0x45a60e61);
    lemma_root_step(14, 0x45a60e61, 640828276, 0x3e687d4d);
    lemma_root_step(13, 0x3e687d4d, 514516087, 0x303964b2);
    lemma_root_step(12, 0x303964b2, 307217610, 0x768fc6fa);
    lemma_root_step(11, 0x768fc6fa, 1856968328, 0x7744959c);
    lemma_root_step(10, 0x7744959c, 1879158345, 0x334d48c7);
    lemma_root_step(9, 0x334d48c7, 347682582, 0x27ad539b);
    lemma_root_step(8, 0x27ad539b, 207967311, 0x17668b8a);
    lemma_root_step(7, 0x17668b8a, 72338404, 0x29b75a80);
    lemma_root_step(6, 0x29b75a80, 229893223, 0x5c4a5b99);
    lemma_root_step(5, 0x5c4a5b99, 1125200192, 0xa28f031);
    lemma_root_step(4, 0xa28f031, 13636293, 0x8dbd69c);
    lemma_root_step(3, 0x8dbd69c, 10367174, 0x6832fe4a);
    lemma_root_step(2, 0x6832fe4a, 1434316130, 0x7e010002);
    lemma_root_step(1, 0x7e010002, 2097414148, 0x7f000000);
    lemma_root_step(0, 0x7f000000, 2130706431, 0x1);
}

/// Raising the generator of order `2^bits` to `2^k` gives the one of order `2^(bits-k)`.
pub proof fn lemma_root_pow(bits: nat, k: nat)
    requires
        k <= bits <= TWO_ADICITY,
    ensures
        fpow(two_adic_root(bits), pow2(k)) == two_adic_root((bits - k) as nat),
    decreases k,
{
    let g = two_adic_root(bits);
    lemma_root_range(bits);
    if k == 0 {
        lemma2_to64();
        lemma_fpow_one(g);
    } else {
        let j = (k - 1) as nat;
        lemma_root_pow(bits, j);
        lemma_pow2_unfold(k);
        lemma_fpow_add(g, pow2(j), pow2(j));
    }
}

/// The generator of order `2^bits` has that order: its `2^bits`-th power is 1 and
/// its `2^(bits-1)`-th power is -1.
pub proof fn lemma_root_order(bits: nat)
    requires
        bits <= TWO_ADICITY,
    ensures
        fpow(two_adic_root(bits), pow2(bits)) == 1,
        bits >= 1 ==> fpow(two_adic_root(bits), pow2((bits - 1) as nat)) == P - 1,
{
    lemma_root_base();
    lemma_root_pow(bits, bits);
    if bits >= 1 {
        lemma_root_pow(bits, (bits - 1) as nat);
    }
}

/// An element of the field.
#[derive(Clone, Copy, Debug)]
pub struct F {
    value: u32,
}

impl View for F {
    type V = int;

    closed spec fn view(&self) -> int {
        (self.value as int) % (P as int)
    }
}

impl PartialEq for F {
    fn eq(&self, other: &Self) -> (r: bool) {
        proof {
            use_type_invariant(*self);
            use_type_invariant(*other);
        }
        self.value == other.value
    }
}

impl vstd::std_specs::cmp::PartialEqSpecImpl for F {
    open spec fn obeys_eq_spec() -> bool {
        true
    }

    open spec fn eq_spec(&self, other: &Self) -> bool {
        self@ == other@
    }
}

impl Eq for F {

}

impl F {
    #[verifier::type_invariant]
    spec fn inv(self) -> bool {
        self.value < P
    }

    /// A view is a canonical representative.
    pub broadcast proof fn lemma_view_range(self)
        ensures
            0 <= #[trigger] self@ < P,
    {
    }

    pub fn zero() -> (r: F)
        ensures
            r@ == 0,
    {
        F { value: 0 }
    }

    pub fn one() -> (r: F)
        ensures
            r@ == 1,
    {
        F { value: 1 }
    }

    pub fn two() -> (r: F)
        ensures
            r@ == 2,
    {
        F { value: 2 }
    }

    pub fn from_u8(x: u8) -> (r: F)
        ensures
            r@ == x,
    {
        F { value: x as u32 }
    }

    pub fn from_u32(x: u32) -> (r: F)
        ensures
            r@ == x as int % P as int,
    {
        F { value: x % P }
    }

    pub fn from_usize(x: usize) -> (r: F)
        ensures
            r@ == x as int % P as int,
    {
        F { value: (x as u64 % P as u64) as u32 }
    }

    pub fn as_canonical_u32(&self) -> (r: u32)
        ensures
            r == self@,
    {
        proof {
            use_type_invariant(*self);
        }
        self.value
    }

    pub fn add(self, rhs: F) -> (r: F)
        ensures
            r@ == fadd(self@, rhs@),
    {
        proof {
            use_type_invariant(self);
            use_type_invariant(rhs);
            reveal(fadd);
        }
        F { value: ((self.value as u64 + rhs.value as u64) % P as u64) as u32 }
    }

    pub fn sub(self, rhs: F) -> (r: F)
        ensures
            r@ == fsub(self@, rhs@),
    {
        proof {
            use_type_invariant(self);
            use_type_invariant(rhs);
            reveal(fsub);
        }
        F { value: ((self.value as u64 + P as u64 - rhs.value as u64) % P as u64) as u32 }
    }

    pub fn neg(self) -> (r: F)
        ensures
            r@ == fneg(self@),
    {
        F::zero().sub(self)
    }

    pub fn mul(self, rhs: F) -> (r: F)
        ensures
            r@ == fmul(self@, rhs@),
    {
        proof {
            use_type_invariant(self);
            use_type_invariant(rhs);
            reveal(fmul);
            assert(self.value * rhs.value <= 0xffff_ffff * 0xffff_ffff) by (nonlinear_arith)
                requires
                    0 <= self.value <= 0xffff_ffff,
                    0 <= rhs.value <= 0xffff_ffff,
            ;
            assert(self.value * rhs.value >= 0) by (nonlinear_arith)
                requires
                    0 <= self.value <= 0xffff_ffff,
                    0 <= rhs.value <= 0xffff_ffff,
            ;
        }
        F { value: ((self.value as u64 * rhs.value as u64) % P as u64) as u32 }
    }

    /// Exponentiation by squaring.
    pub fn exp_u64(self, n: u64) -> (r: F)
        ensures
            r@ == fpow(self@, n as nat),
    {
        let mut acc: F = F::one();
        let mut base: F = self;
        let mut m: u64 = n;
        proof {
            lemma_fpow_range(base@, m as nat);
            lemma_fmul_one(fpow(base@, m as nat));
        }
        while m > 0
            invariant
                fmul(acc@, fpow(base@, m as nat)) == fpow(self@, n as nat),
            decreases m,
        {
            proof {
                let (a, b, h) = (acc@, base@, (m / 2) as nat);
                base.lemma_view_range();
                lemma_fpow_one(b);
                lemma_fpow_add(b, 1, 1);
                lemma_fpow_mul(b, 2, h);
                if m % 2 == 1 {
                    assert(m as nat == 1 + 2 * h);
                    lemma_fpow_add(b, 1, 2 * h);
                    lemma_fmul_assoc(a, b, fpow(b, 2 * h));
                } else {
                    assert(m as nat == 2 * h);
                }
            }
            if m % 2 == 1 {
                acc = acc.mul(base);
            }
            base = base.mul(base);
            m = m / 2;
        }
        proof {
            acc.lemma_view_range();
            lemma_fmul_one(acc@);
        }
        acc
    }

    /// The multiplicative inverse. With `P = q x + r` the inverse of `x` is `-q` times
    /// that of `r`, and `r` is smaller.
    pub fn inverse(&self) -> (r: F)
        requires
            self@ != 0,
        ensures
            r@ == finv(self@),
            fmul(r@, self@) == 1,
    {
        let mut x: u32 = self.as_canonical_u32();
        let mut acc: F = F::one();
        let ghost a = self@;
        proof {
            self.lemma_view_range();
            lemma_fmul_one(a);
        }
        while x != 1
            invariant
                0 < x < P,
                fmul(acc@, a) == x,
            decreases x,
        {
            let q: u32 = P / x;
            let r: u32 = P % x;
            proof {
                lemma_inverse_step(x as int);
                lemma_small_mod(q as nat, P as nat);
                lemma_fmul_assoc(fneg(q as int), acc@, a);
            }
            acc = F::from_u32(q).neg().mul(acc);
            x = r;
        }
        proof {
            acc.lemma_view_range();
            lemma_finv_unique(a, acc@);
        }
        acc
    }

    /// A generator of the subgroup of order `2^bits`.
    pub fn two_adic_generator(bits: usize) -> (r: F)
        requires
            bits <= TWO_ADICITY,
        ensures
            r@ == two_adic_root(bits as nat),
    {
        let mut g: F = F::from_u32(TWO_ADIC_ROOT);
        let mut b: usize = TWO_ADICITY;
        while b > bits
            invariant
                bits <= b <= TWO_ADICITY,
                g@ == two_adic_root(b as nat),
            decreases b,
        {
            g = g.mul(g);
            b = b - 1;
        }
        g
    }
}

} // verus!
