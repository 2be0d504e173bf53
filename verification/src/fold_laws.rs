//! What the check with one challenge accepts.
//!
//! Folding with one challenge `b` in each of `t` rounds takes the polynomial with
//! coefficients `c` to the one whose coefficient `q` is the sum over `j < 2^t` of
//! `c[q 2^t + j]` times `b` to the number of ones in the binary form of `j`. The check
//! accepts exactly the vectors for which all those sums but the first vanish. For degrees
//! above two a combination of coefficients whose `j` have equally many ones can cancel, so
//! that acceptance under every challenge says that the coefficients of each block with
//! equally many ones add up to zero, and for degrees up to two that they are zero.

use crate::code::{
    combine, epoly, evens, fold_step, in_code, is_encoding, lemma_epoly_pad, lemma_fold_encoding,
    lemma_fold_step_wf, lemma_half_domain, lemma_unfold_in_code, odds,
};
use crate::ext::{
    eadd, embed, emul, epow, eswf, ewf, lemma_eadd_assoc, lemma_eadd_zero, lemma_emul_assoc,
    lemma_emul_comm, lemma_emul_dist, lemma_emul_embed, lemma_emul_one, lemma_epow_wf,
    lemma_escale_embed_zero, lemma_escale_unit, lemma_ewf_ops, Ext,
};
use crate::field::{canonical, lemma_fadd_zero, lemma_fmul_zero};
use crate::fold::{all_equal, folded, lemma_plan_params, plan_params, repeated};
use crate::numeric::{lemma_log2_half, lemma_pow2_log2, log2};
use crate::polynomial::{domain_element, domain_generator, domain_size, encoding, fpoly};
use crate::soundness::{coord, coord_seq, lemma_coord_epoly, lemma_reconstruction_unique};
use crate::sums::{esum, lemma_esum_eq, lemma_esum_wf, lemma_esum_zero};
use vstd::arithmetic::power2::{lemma2_to64, lemma_pow2_pos, lemma_pow2_unfold, pow2};
use vstd::prelude::*;

verus! {

/// Constant layers are those in which any two values are equal.
pub proof fn lemma_all_equal_pairs(v: Seq<Ext>)
    ensures
        all_equal(v) <==> forall|i: int, j: int|
            0 <= i < v.len() && 0 <= j < v.len() ==> #[trigger] v[i] == #[trigger] v[j],
{
}

/// The number of ones in the binary form of a number.
pub open spec fn ones(j: int) -> nat
    decreases j,
{
    if j <= 0 {
        0
    } else {
        (j % 2) as nat + ones(j / 2)
    }
}

/// The sum of block `q` of `d` coefficients, each times the challenge to the number of ones
/// in its place.
pub open spec fn block_sum(c: Seq<Ext>, d: int, q: int, beta: Ext) -> Ext {
    esum(|j: int| emul(epow(beta, ones(j)), c[q * d + j]), d as nat)
}

/// The coefficients after `t` rounds.
spec fn reduced(c: Seq<Ext>, t: nat, beta: Ext) -> Seq<Ext>
    decreases t,
{
    if t == 0 {
        c
    } else {
        reduced(combine(evens(c), beta, odds(c)), (t - 1) as nat, beta)
    }
}

/// Terms added in pairs.
proof fn lemma_esum_pairs(f: spec_fn(int) -> Ext, m: nat)
    ensures
        esum(f, 2 * m) == esum(|j: int| eadd(f(2 * j), f(2 * j + 1)), m),
    decreases m,
{
    if m > 0 {
        let k = m - 1;
        lemma_esum_pairs(f, k as nat);
        let g = |j: int| eadd(f(2 * j), f(2 * j + 1));
        let a = esum(f, (2 * k) as nat);
        assert(esum(f, (2 * k + 1) as nat) == eadd(a, f(2 * k)));
        assert(esum(f, (2 * k + 2) as nat) == eadd(eadd(a, f(2 * k)), f(2 * k + 1)));
        lemma_eadd_assoc(a, f(2 * k), f(2 * k + 1));
        assert(esum(g, m) == eadd(esum(g, k as nat), g(k)));
    }
}

/// The coefficients after `t` rounds are the block sums.
proof fn lemma_reduced(c: Seq<Ext>, t: nat, beta: Ext, m: nat, q: int)
    requires
        c.len() == m * pow2(t),
        eswf(c),
        ewf(beta),
        0 <= q < m,
    ensures
        reduced(c, t, beta).len() == m,
        eswf(reduced(c, t, beta)),
        reduced(c, t, beta)[q] == block_sum(c, pow2(t) as int, q, beta),
    decreases t,
{
    if t == 0 {
        lemma2_to64();
        assert(m * 1 == m);
        assert(q * 1 == q);
        let f = |j: int| emul(epow(beta, ones(j)), c[q * 1 + j]);
        assert(f(0) == c[q]) by {
            lemma_emul_one(c[q]);
        }
        reveal_with_fuel(esum, 2);
        lemma_eadd_zero(c[q]);
    } else {
        let s = (t - 1) as nat;
        let h = pow2(s);
        lemma_pow2_unfold(t);
        let c1 = combine(evens(c), beta, odds(c));
        assert(m * (2 * h) == 2 * (m * h)) by (nonlinear_arith);
        assert(c1.len() == m * h);
        assert forall|k: int| 0 <= k < c1.len() implies ewf(#[trigger] c1[k]) by {
            lemma_ewf_ops(c[2 * k], emul(beta, c[2 * k + 1]), 0);
        }
        lemma_reduced(c1, s, beta, m, q);
        let f = |j: int| emul(epow(beta, ones(j)), c[q * (2 * h) + j]);
        let g = |j: int| emul(epow(beta, ones(j)), c1[q * h + j]);
        let pair = |j: int| eadd(f(2 * j), f(2 * j + 1));
        assert forall|j: int| 0 <= j < h implies #[trigger] g(j) == pair(j) by {
            let k = q * h + j;
            assert(0 <= k < m * h) by (nonlinear_arith)
                requires
                    k == q * h + j,
                    0 <= q < m,
                    0 <= j < h,
            ;
            assert(q * (2 * h) + 2 * j == 2 * k) by (nonlinear_arith)
                requires
                    k == q * h + j,
            ;
            let p = epow(beta, ones(j));
            let (x, y) = (c[2 * k], c[2 * k + 1]);
            lemma_epow_wf(beta, ones(j));
            assert((2 * j) / 2 == j && (2 * j) % 2 == 0);
            assert((2 * j + 1) / 2 == j && (2 * j + 1) % 2 == 1);
            assert(ones(2 * j) == ones(j));
            assert(ones(2 * j + 1) == ones(j) + 1);
            // The next power is beta times this one.
            assert(epow(beta, ones(j) + 1) == emul(beta, p));
            lemma_emul_dist(p, x, emul(beta, y));
            lemma_emul_assoc(p, beta, y);
            lemma_emul_comm(p, beta);
        }
        lemma_esum_eq(g, pair, h);
        lemma_esum_pairs(f, h);
        lemma_esum_eq(|j: int| eadd(f(2 * j), f(2 * j + 1)), pair, h);
    }
}

/// Folding a codeword gives the values of the reduced coefficients.
proof fn lemma_folded_encoding(v: Seq<Ext>, c: Seq<Ext>, t: nat, beta: Ext, m: nat)
    requires
        domain_size(v.len() as int),
        v.len() == m * pow2(t),
        c.len() == m * pow2(t),
        t <= log2(v.len() as int),
        eswf(c),
        is_encoding(v, c, v.len() as int),
    ensures
        is_encoding(folded(v, t, beta), reduced(c, t, beta), m as int),
        domain_size(m as int),
    decreases t,
{
    let n = v.len() as int;
    if t == 0 {
        lemma2_to64();
        assert(m * 1 == m);
        assert(repeated(beta, 0).len() == 0);
        assert(folded(v, 0, beta) == v);
    } else {
        let s = (t - 1) as nat;
        lemma_pow2_log2(n);
        if n < 2 {
            assert(n == 1);
        }
        lemma_log2_half(n);
        lemma_half_domain(n);
        lemma_pow2_unfold(t);
        let h = pow2(s);
        assert(m * (2 * h) == 2 * (m * h)) by (nonlinear_arith);
        lemma_fold_encoding(v, c, n, beta);
        let v1 = fold_step(v, beta, domain_generator(n));
        let c1 = combine(evens(c), beta, odds(c));
        assert(v1.len() == n / 2);
        lemma_folded_encoding(v1, c1, s, beta, m);
        assert(repeated(beta, t).drop_first() =~= repeated(beta, s));
    }
}

/// A polynomial with zero coefficients is zero.
proof fn lemma_epoly_zero(c: Seq<Ext>, x: int)
    requires
        forall|i: int| 0 <= i < c.len() ==> #[trigger] c[i] == embed(0),
    ensures
        epoly(c, x) == embed(0),
    decreases c.len(),
{
    if c.len() > 0 {
        let d = c.drop_first();
        assert forall|i: int| 0 <= i < d.len() implies #[trigger] d[i] == embed(0) by {
            assert(d[i] == c[i + 1]);
        }
        lemma_epoly_zero(d, x);
        assert(c[0] == embed(0));
        lemma_escale_embed_zero(x);
        lemma_eadd_zero(embed(0));
    }
}

/// A constant polynomial over the base field.
proof fn lemma_fpoly_constant(a: Seq<int>, x: int)
    requires
        a.len() > 0,
        canonical(a[0]),
        forall|i: int| 0 < i < a.len() ==> #[trigger] a[i] == 0,
    ensures
        fpoly(a, x) == a[0],
{
    let d = a.drop_first();
    assert forall|i: int| 0 <= i < d.len() implies #[trigger] d[i] == 0 by {
        assert(d[i] == a[i + 1]);
    }
    lemma_fpoly_zero(d, x);
    lemma_fmul_zero(x);
    lemma_fadd_zero(a[0]);
}

/// A zero polynomial over the base field.
proof fn lemma_fpoly_zero(a: Seq<int>, x: int)
    requires
        forall|i: int| 0 <= i < a.len() ==> #[trigger] a[i] == 0,
    ensures
        fpoly(a, x) == 0,
    decreases a.len(),
{
    if a.len() > 0 {
        let d = a.drop_first();
        assert forall|i: int| 0 <= i < d.len() implies #[trigger] d[i] == 0 by {
            assert(d[i] == a[i + 1]);
        }
        lemma_fpoly_zero(d, x);
        lemma_fmul_zero(x);
        assert(a[0] == 0);
        lemma_fadd_zero(0);
    }
}

/// The values of a polynomial with as many coefficients as there are values are all equal
/// exactly where it is constant.
pub proof fn lemma_constant_encoding(f: Seq<Ext>, e: Seq<Ext>, m: int)
    requires
        domain_size(m),
        e.len() == m,
        eswf(e),
        is_encoding(f, e, m),
    ensures
        all_equal(f) <==> forall|q: int| 1 <= q < m ==> #[trigger] e[q] == embed(0),
{
    lemma_pow2_log2(m);
    if forall|q: int| 1 <= q < m ==> #[trigger] e[q] == embed(0) {
        let d = e.drop_first();
        assert forall|i: int| 0 <= i < d.len() implies #[trigger] d[i] == embed(0) by {
            assert(d[i] == e[i + 1]);
        }
        assert forall|i: int| 0 <= i < m implies #[trigger] f[i] == e[0] by {
            let x = domain_element(m, i);
            lemma_epoly_zero(d, x);
            lemma_escale_embed_zero(x);
            lemma_eadd_zero(e[0]);
        }
    }
    if all_equal(f) {
        assert forall|q: int| 1 <= q < m implies #[trigger] e[q] == embed(0) by {
            lemma_coordinate_vanishes(f, e, m, q, 0);
            lemma_coordinate_vanishes(f, e, m, q, 1);
            lemma_coordinate_vanishes(f, e, m, q, 2);
            lemma_coordinate_vanishes(f, e, m, q, 3);
            lemma_coordinate_vanishes(f, e, m, q, 4);
        }
    }
}

/// A coordinate of a higher coefficient of a constant polynomial is zero.
proof fn lemma_coordinate_vanishes(f: Seq<Ext>, e: Seq<Ext>, m: int, q: int, k: int)
    requires
        domain_size(m),
        e.len() == m,
        eswf(e),
        is_encoding(f, e, m),
        all_equal(f),
        1 <= q < m,
        0 <= k < 5,
    ensures
        coord(e[q], k) == 0,
{
    let b = coord_seq(e, k);
    let a = Seq::new(m as nat, |i: int| if i == 0 {
        coord(f[0], k)
    } else {
        0
    });
    let positions = Seq::new(m as nat, |i: int| i);
    assert(ewf(f[0])) by {
        assert(f[0] == epoly(e, domain_element(m, 0)));
        crate::code::lemma_epoly_wf(e, domain_element(m, 0));
    }
    assert forall|i: int| 0 <= i < b.len() implies canonical(#[trigger] b[i]) by {
        assert(ewf(e[i]));
    }
    assert forall|i: int| 0 <= i < positions.len() implies encoding(a, m)[#[trigger] positions[i]]
        == encoding(b, m)[positions[i]] by {
        let x = domain_element(m, i);
        lemma_fpoly_constant(a, x);
        lemma_coord_epoly(e, x, k);
        assert(f[i] == epoly(e, x));
        lemma_all_equal_pairs(f);
        assert(f[i] == f[0]);
    }
    lemma_reconstruction_unique(a, b, m, positions);
    assert(b[q] == a[q]);
}

/// What the check accepts. For a vector that holds the values of the polynomial with
/// coefficients `c`, it accepts under a challenge exactly where every block of coefficients
/// but the first adds up to zero, each coefficient taken times the challenge to the number of
/// ones in its place.
pub proof fn lemma_accepted_iff(v: Seq<Ext>, c: Seq<Ext>, degree: int, beta: Ext)
    requires
        plan_params(v.len() as int, degree),
        c.len() == v.len(),
        eswf(c),
        is_encoding(v, c, v.len() as int),
        ewf(beta),
    ensures
        all_equal(folded(v, log2(degree), beta)) <==> forall|q: int|
            1 <= q < v.len() as int / degree ==> #[trigger] block_sum(c, degree, q, beta)
                == embed(0),
{
    let n = v.len() as int;
    let t = log2(degree);
    let m = n / degree;
    lemma_plan_params(n, degree);
    lemma_pow2_log2(degree);
    assert(n == m * pow2(t)) by (nonlinear_arith)
        requires
            n == degree * m,
            degree == pow2(t),
    ;
    let f = folded(v, t, beta);
    let e = reduced(c, t, beta);
    lemma_folded_encoding(v, c, t, beta, m as nat);
    lemma_reduced(c, t, beta, m as nat, 0);
    lemma_constant_encoding(f, e, m);
    assert forall|q: int| 1 <= q < m implies e[q] == #[trigger] block_sum(
        c,
        degree,
        q,
        beta,
    ) by {
        lemma_reduced(c, t, beta, m as nat, q);
    }
    if forall|q: int| 1 <= q < m ==> #[trigger] e[q] == embed(0) {
        assert forall|q: int| 1 <= q < m implies #[trigger] block_sum(c, degree, q, beta) == embed(
            0,
        ) by {
            assert(e[q] == embed(0));
        }
    }
    if forall|q: int| 1 <= q < m ==> #[trigger] block_sum(c, degree, q, beta) == embed(0) {
        assert forall|q: int| 1 <= q < m implies #[trigger] e[q] == embed(0) by {
            assert(block_sum(c, degree, q, beta) == embed(0));
        }
    }
}

/// Every vector on a domain holds the values of a polynomial with as many coefficients as it
/// has values.
pub proof fn lemma_every_vector_encodes(v: Seq<Ext>)
    requires
        domain_size(v.len() as int),
        eswf(v),
    ensures
        in_code(v, v.len() as int, v.len()),
    decreases v.len(),
{
    let n = v.len() as int;
    lemma_pow2_log2(n);
    if n == 1 {
        let c = v;
        let x = domain_element(1, 0);
        assert(c.drop_first().len() == 0);
        assert(epoly(c.drop_first(), x) == embed(0));
        lemma_escale_embed_zero(x);
        lemma_eadd_zero(c[0]);
        assert forall|i: int| 0 <= i < n implies #[trigger] v[i] == epoly(
            c,
            domain_element(n, i),
        ) by {}
        assert(is_encoding(v, c, n));
    } else {
        lemma_half_domain(n);
        let g = domain_generator(n);
        let (f0, f1) = (fold_step(v, embed(0), g), fold_step(v, embed(1), g));
        lemma_fold_step_wf(v, embed(0), g);
        lemma_fold_step_wf(v, embed(1), g);
        assert(f0.len() == n / 2 && f1.len() == n / 2);
        lemma_every_vector_encodes(f0);
        lemma_every_vector_encodes(f1);
        lemma_unfold_in_code(v, n, (n / 2) as nat);
    }
}

/// Soundness for degrees up to two: a vector that the check accepts under the challenges zero
/// and one holds the values of a polynomial with `degree` coefficients.
pub proof fn lemma_small_degree_sound(v: Seq<Ext>, degree: int)
    requires
        plan_params(v.len() as int, degree),
        degree <= 2,
        eswf(v),
        all_equal(folded(v, log2(degree), embed(0))),
        all_equal(folded(v, log2(degree), embed(1))),
    ensures
        in_code(v, v.len() as int, degree as nat),
{
    let n = v.len() as int;
    lemma_plan_params(n, degree);
    lemma_every_vector_encodes(v);
    let c = choose|c: Seq<Ext>|
        c.len() == v.len() && eswf(c) && #[trigger] is_encoding(v, c, n);
    let (z, o) = (embed(0), embed(1));
    lemma_accepted_iff(v, c, degree, z);
    lemma_accepted_iff(v, c, degree, o);
    let m = n / degree;
    assert forall|k: int| degree <= k < n implies #[trigger] c[k] == z by {
        let (q, j) = (k / degree, k % degree);
        vstd::arithmetic::div_mod::lemma_fundamental_div_mod(k, degree);
        assert(1 <= q < m) by (nonlinear_arith)
            requires
                k == degree * q + j,
                0 <= j < degree,
                degree <= k < n,
                n == degree * m,
        ;
        assert(q * degree == degree * q) by (nonlinear_arith);
        assert(0 <= q * degree && q * degree + degree <= n) by (nonlinear_arith)
            requires
                1 <= q < m,
                n == degree * m,
                degree >= 1,
        ;
        assert(block_sum(c, degree, q, z) == z);
        assert(block_sum(c, degree, q, o) == z);
        lemma_small_block(c, degree, q);
    }
    let low = c.take(degree);
    let pad = Seq::new((n - degree) as nat, |i: int| embed(0));
    assert(low + pad =~= c);
    assert forall|i: int| 0 <= i < low.len() implies ewf(#[trigger] low[i]) by {
        assert(low[i] == c[i]);
    }
    assert forall|i: int| 0 <= i < n implies #[trigger] v[i] == epoly(low, domain_element(n, i)) by {
        lemma_epoly_pad(low, (n - degree) as nat, domain_element(n, i));
    }
    assert(is_encoding(v, low, n));
}

/// A block of one or two coefficients whose sums with the challenges zero and one vanish is
/// zero.
proof fn lemma_small_block(c: Seq<Ext>, degree: int, q: int)
    requires
        1 <= degree <= 2,
        eswf(c),
        0 <= q * degree,
        q * degree + degree <= c.len(),
        block_sum(c, degree, q, embed(0)) == embed(0),
        block_sum(c, degree, q, embed(1)) == embed(0),
    ensures
        c[q * degree] == embed(0),
        degree == 2 ==> c[q * degree + 1] == embed(0),
{
    let (z, o) = (embed(0), embed(1));
    let k = q * degree;
    reveal_with_fuel(esum, 3);
    reveal_with_fuel(ones, 2);
    let a = c[k];
    assert(epow(z, 0) == embed(1) && epow(o, 0) == embed(1));
    lemma_emul_one(a);
    lemma_eadd_zero(a);
    let f = |j: int| emul(epow(z, ones(j)), c[q * degree + j]);
    let g = |j: int| emul(epow(o, ones(j)), c[q * degree + j]);
    assert(ones(0) == 0);
    assert(f(0) == a);
    assert(g(0) == a);
    if degree == 2 {
        let b = c[k + 1];
        assert(ones(1) == 1) by {
            assert(ones(0) == 0);
        }
        reveal_with_fuel(epow, 2);
        lemma_emul_one(z);
        lemma_emul_one(o);
        lemma_emul_comm(z, embed(1));
        assert(epow(z, 1) == z);
        assert(epow(o, 1) == o);
        lemma_emul_embed(0, b);
        lemma_escale_unit(b);
        assert(f(1) == z);
        lemma_emul_one(b);
        assert(g(1) == b);
        assert(esum(f, 2) == eadd(eadd(embed(0), f(0)), f(1)));
        assert(esum(g, 2) == eadd(eadd(embed(0), g(0)), g(1)));
        lemma_eadd_zero(b);
    } else {
        assert(esum(f, 1) == eadd(embed(0), f(0)));
    }
}

/// The coefficient itself where the number of ones in its place is `k`.
pub open spec fn class_term(c: Seq<Ext>, d: int, q: int, k: int, j: int) -> Ext {
    if ones(j) == k {
        c[q * d + j]
    } else {
        embed(0)
    }
}

/// The sum of the coefficients of block `q` whose places have `k` ones.
pub open spec fn class_sum(c: Seq<Ext>, d: int, q: int, k: int) -> Ext {
    esum(|j: int| class_term(c, d, q, k, j), d as nat)
}

/// The sums of the classes of a block.
pub open spec fn class_sums(c: Seq<Ext>, d: int, q: int) -> Seq<Ext> {
    Seq::new(log2(d) + 1, |k: int| class_sum(c, d, q, k))
}

/// There are no more ones than binary places.
proof fn lemma_ones_bound(j: int, t: nat)
    requires
        0 <= j < pow2(t),
    ensures
        ones(j) <= t,
    decreases t,
{
    lemma2_to64();
    if t > 0 && j > 0 {
        lemma_pow2_unfold(t);
        lemma_ones_bound(j / 2, (t - 1) as nat);
    }
}

/// A polynomial's value as a sum.
proof fn lemma_epoly_sum(s: Seq<Ext>, x: int)
    requires
        eswf(s),
        canonical(x),
    ensures
        epoly(s, x) == esum(|k: int| emul(epow(embed(x), k as nat), s[k]), s.len()),
    decreases s.len(),
{
    let b = embed(x);
    let f = |k: int| emul(epow(b, k as nat), s[k]);
    if s.len() > 0 {
        let d = s.drop_first();
        assert forall|i: int| 0 <= i < d.len() implies ewf(#[trigger] d[i]) by {
            assert(d[i] == s[i + 1]);
        }
        lemma_epoly_sum(d, x);
        let g = |k: int| emul(epow(b, k as nat), d[k]);
        let up = |k: int| f(1 + k);
        let m = d.len();
        let bg = |k: int| emul(b, g(k));
        assert forall|k: int| 0 <= k < m implies #[trigger] up(k) == bg(k) by {
            let p = epow(b, k as nat);
            lemma_epow_wf(b, k as nat);
            assert(epow(b, (k + 1) as nat) == emul(b, p));
            lemma_emul_assoc(b, p, d[k]);
        }
        lemma_esum_eq(up, bg, m);
        crate::sums::lemma_esum_mul(b, g, m);
        crate::sums::lemma_esum_split(f, 1, m);
        lemma_esum_eq(|j: int| f(1 + j), up, m);
        lemma_esum_wf(g, m);
        lemma_emul_embed(x, esum(g, m));
        lemma_emul_one(s[0]);
        assert(f(0) == s[0]);
        assert(esum(f, 1) == s[0]) by {
            reveal_with_fuel(esum, 2);
            lemma_eadd_zero(s[0]);
        }
    }
}

/// A sum with one term.
proof fn lemma_single_term(f: spec_fn(int) -> Ext, a: int, n: nat)
    requires
        0 <= a < n,
        ewf(f(a)),
        forall|k: int| 0 <= k < n && k != a ==> #[trigger] f(k) == embed(0),
    ensures
        esum(f, n) == f(a),
    decreases n,
{
    let m = (n - 1) as nat;
    if a == n - 1 {
        lemma_esum_zero(f, m);
        lemma_eadd_zero(f(a));
    } else {
        lemma_single_term(f, a, m);
        assert(f(n - 1) == embed(0));
        lemma_eadd_zero(f(a));
    }
}

/// A block sum with a base field challenge is the value at the challenge of the polynomial
/// whose coefficients are the sums of the classes.
proof fn lemma_block_by_class(c: Seq<Ext>, d: int, q: int, x: int)
    requires
        d >= 1,
        d == pow2(log2(d)),
        eswf(c),
        canonical(x),
        0 <= q * d,
        q * d + d <= c.len(),
    ensures
        block_sum(c, d, q, embed(x)) == epoly(class_sums(c, d, q), x),
        eswf(class_sums(c, d, q)),
{
    let t = log2(d);
    let b = embed(x);
    let s = class_sums(c, d, q);
    let n = (t + 1) as nat;
    assert forall|k: int| 0 <= k < s.len() implies ewf(#[trigger] s[k]) by {
        lemma_esum_wf(|j: int| class_term(c, d, q, k, j), d as nat);
    }
    lemma_epoly_sum(s, x);
    let f = |k: int, j: int| emul(epow(b, k as nat), class_term(c, d, q, k, j));
    let rows = |k: int| emul(epow(b, k as nat), s[k]);
    let row_sums = |k: int| esum(|j: int| f(k, j), d as nat);
    assert forall|k: int| 0 <= k < n implies #[trigger] rows(k) == row_sums(k) by {
        let p = epow(b, k as nat);
        let term = |j: int| class_term(c, d, q, k, j);
        crate::sums::lemma_esum_mul(p, term, d as nat);
        lemma_esum_eq(|j: int| emul(p, term(j)), |j: int| f(k, j), d as nat);
    }
    lemma_esum_eq(rows, row_sums, n);
    lemma_esum_eq(|k: int| emul(epow(b, k as nat), s[k]), rows, n);
    crate::sums::lemma_esum_swap(f, n, d as nat);
    lemma_esum_eq(row_sums, |k: int| esum(|j: int| f(k, j), d as nat), n);
    let cols = |j: int| esum(|k: int| f(k, j), n);
    let terms = |j: int| emul(epow(b, ones(j)), c[q * d + j]);
    assert forall|j: int| 0 <= j < d implies #[trigger] cols(j) == terms(j) by {
        lemma_ones_bound(j, t);
        let a = ones(j) as int;
        let g = |k: int| f(k, j);
        assert forall|k: int| 0 <= k < n && k != a implies #[trigger] g(k) == embed(0) by {
            crate::code::lemma_emul_embed_zero(epow(b, k as nat));
        }
        lemma_ewf_ops(epow(b, ones(j)), c[q * d + j], 0);
        lemma_single_term(g, a, n);
        lemma_esum_eq(|k: int| f(k, j), g, n);
    }
    lemma_esum_eq(|j: int| esum(|k: int| f(k, j), n), cols, d as nat);
    lemma_esum_eq(cols, terms, d as nat);
}

/// A polynomial over the extension with as many roots in the base field as coefficients is
/// zero.
proof fn lemma_many_base_roots(s: Seq<Ext>, xs: Seq<int>, k: int)
    requires
        eswf(s),
        xs.len() >= s.len(),
        xs.no_duplicates(),
        forall|i: int| 0 <= i < xs.len() ==> canonical(#[trigger] xs[i]),
        forall|i: int| 0 <= i < xs.len() ==> epoly(s, #[trigger] xs[i]) == embed(0),
        0 <= k < s.len(),
    ensures
        s[k] == embed(0),
{
    lemma_root_coordinate(s, xs, 0);
    lemma_root_coordinate(s, xs, 1);
    lemma_root_coordinate(s, xs, 2);
    lemma_root_coordinate(s, xs, 3);
    lemma_root_coordinate(s, xs, 4);
    assert(coord_seq(s, 0)[k] == 0);
    assert(coord_seq(s, 1)[k] == 0);
    assert(coord_seq(s, 2)[k] == 0);
    assert(coord_seq(s, 3)[k] == 0);
    assert(coord_seq(s, 4)[k] == 0);
}

/// A coordinate of such a polynomial is zero.
proof fn lemma_root_coordinate(s: Seq<Ext>, xs: Seq<int>, k: int)
    requires
        eswf(s),
        xs.len() >= s.len(),
        xs.no_duplicates(),
        forall|i: int| 0 <= i < xs.len() ==> canonical(#[trigger] xs[i]),
        forall|i: int| 0 <= i < xs.len() ==> epoly(s, #[trigger] xs[i]) == embed(0),
        0 <= k < 5,
    ensures
        forall|i: int| 0 <= i < s.len() ==> #[trigger] coord_seq(s, k)[i] == 0,
{
    let c = coord_seq(s, k);
    assert forall|i: int| 0 <= i < c.len() implies canonical(#[trigger] c[i]) by {
        assert(ewf(s[i]));
    }
    assert forall|i: int| 0 <= i < xs.len() implies fpoly(c, #[trigger] xs[i]) == 0 by {
        lemma_coord_epoly(s, xs[i], k);
    }
    crate::soundness::lemma_many_roots(c, xs);
}

/// Soundness for every degree: where the check accepts the values of the polynomial with
/// coefficients `c` under one more base field challenge than there are rounds, the
/// coefficients whose places have equally many ones add up to zero in every block but the
/// first. A combination of them that cancels is all that one challenge for all rounds misses.
pub proof fn lemma_accepted_classes_vanish(
    v: Seq<Ext>,
    c: Seq<Ext>,
    degree: int,
    xs: Seq<int>,
    q: int,
    k: int,
)
    requires
        plan_params(v.len() as int, degree),
        c.len() == v.len(),
        eswf(c),
        is_encoding(v, c, v.len() as int),
        xs.len() > log2(degree),
        xs.no_duplicates(),
        forall|i: int| 0 <= i < xs.len() ==> canonical(#[trigger] xs[i]),
        forall|i: int|
            0 <= i < xs.len() ==> all_equal(folded(v, log2(degree), embed(#[trigger] xs[i]))),
        1 <= q < v.len() as int / degree,
        0 <= k <= log2(degree),
    ensures
        class_sum(c, degree, q, k) == embed(0),
{
    let n = v.len() as int;
    lemma_plan_params(n, degree);
    lemma_pow2_log2(degree);
    let m = n / degree;
    assert(0 <= q * degree && q * degree + degree <= n) by (nonlinear_arith)
        requires
            1 <= q < m,
            n == degree * m,
            degree >= 1,
    ;
    let s = class_sums(c, degree, q);
    lemma_block_by_class(c, degree, q, 0);
    assert forall|i: int| 0 <= i < xs.len() implies epoly(s, #[trigger] xs[i]) == embed(0) by {
        lemma_accepted_iff(v, c, degree, embed(xs[i]));
        lemma_block_by_class(c, degree, q, xs[i]);
        assert(block_sum(c, degree, q, embed(xs[i])) == embed(0));
    }
    lemma_many_base_roots(s, xs, k);
}

} // verus!
