//! Reed-Solomon codes over the extension field, and what one folding round does to
//! a codeword's polynomial.

use crate::ext::{
    eadd, embed, embed_seq, emul, escale, esub, eswf, ewf, lemma_eadd_comm, lemma_eadd_assoc,
    lemma_eadd_swap, lemma_eadd_zero, lemma_embed_hom, lemma_emul_dist, lemma_emul_scale,
    lemma_escale_add, lemma_escale_embed_zero, lemma_escale_fadd, lemma_escale_fmul,
    lemma_escale_unit, lemma_esub_is_add, lemma_ewf_ops, Ext,
};
use crate::field::{
    canonical, fadd, finv, fmul, fneg, fpow, lemma_f_range, lemma_finv, lemma_finv_unique,
    lemma_fmul_assoc, lemma_fmul_comm, lemma_fmul_one, lemma_fmul_swap, lemma_fmul_zero,
    lemma_fpow_add, lemma_fpow_of_mul, lemma_fpow_range, lemma_fsub_is_add_neg, lemma_root_order,
    lemma_root_range, P,
};
use crate::numeric::{lemma_log2_half, lemma_pow2_log2, log2};
use crate::polynomial::{domain_element, domain_generator, domain_size, encoding, fpoly};
use vstd::arithmetic::power2::{lemma_pow2_unfold, pow2};
use vstd::prelude::*;

verus! {

/// The value at the base field point `x` of the polynomial with coefficients `c`.
pub open spec fn epoly(c: Seq<Ext>, x: int) -> Ext
    decreases c.len(),
{
    if c.len() == 0 {
        embed(0)
    } else {
        eadd(c[0], escale(x, epoly(c.drop_first(), x)))
    }
}

/// `v` holds the values of the polynomial `c` on the domain of size `n`.
pub open spec fn is_encoding(v: Seq<Ext>, c: Seq<Ext>, n: int) -> bool {
    &&& v.len() == n
    &&& forall|i: int| 0 <= i < n ==> #[trigger] v[i] == epoly(c, domain_element(n, i))
}

/// `v` is a codeword on the domain of size `n`: the values of a polynomial with `d`
/// coefficients.
pub open spec fn in_code(v: Seq<Ext>, n: int, d: nat) -> bool {
    exists|c: Seq<Ext>| c.len() == d && eswf(c) && #[trigger] is_encoding(v, c, n)
}

/// The coefficients at even positions.
pub open spec fn evens(c: Seq<Ext>) -> Seq<Ext> {
    Seq::new(c.len() / 2, |k: int| c[2 * k])
}

/// The coefficients at odd positions.
pub open spec fn odds(c: Seq<Ext>) -> Seq<Ext> {
    Seq::new(c.len() / 2, |k: int| c[2 * k + 1])
}

/// Two coefficient sequences interleaved.
pub open spec fn interleave(a: Seq<Ext>, b: Seq<Ext>) -> Seq<Ext> {
    Seq::new(2 * a.len(), |k: int| if k % 2 == 0 { a[k / 2] } else { b[k / 2] })
}

/// `a + alpha b`, position by position.
pub open spec fn combine(a: Seq<Ext>, alpha: Ext, b: Seq<Ext>) -> Seq<Ext> {
    Seq::new(a.len(), |k: int| eadd(a[k], emul(alpha, b[k])))
}

/// The folded value of a pair of evaluations at `x` and `-x`, where `t` is the inverse
/// of `2x`: the even part plus `alpha` times the odd part.
pub open spec fn fold_value(a: Ext, b: Ext, alpha: Ext, t: int) -> Ext {
    eadd(escale(finv(2), eadd(a, b)), emul(alpha, escale(t, esub(a, b))))
}

/// The inverse of `2 g^i`.
pub open spec fn inv_twiddle(g: int, i: int) -> int {
    finv(fmul(2, fpow(g, i as nat)))
}

/// One folding round on the domain generated by `g`.
pub open spec fn fold_step(v: Seq<Ext>, alpha: Ext, g: int) -> Seq<Ext> {
    Seq::new(
        v.len() / 2,
        |i: int| fold_value(v[i], v[i + v.len() / 2], alpha, inv_twiddle(g, i)),
    )
}

/// Folding rounds, one for each challenge; each squares the generator.
pub open spec fn fold_all(v: Seq<Ext>, alphas: Seq<Ext>, g: int) -> Seq<Ext>
    decreases alphas.len(),
{
    if alphas.len() == 0 {
        v
    } else {
        fold_all(fold_step(v, alphas[0], g), alphas.drop_first(), fmul(g, g))
    }
}

// Evaluation of polynomials.

pub proof fn lemma_epoly_wf(c: Seq<Ext>, x: int)
    requires
        eswf(c),
    ensures
        ewf(epoly(c, x)),
{
    if c.len() > 0 {
        lemma_ewf_ops(c[0], escale(x, epoly(c.drop_first(), x)), 0);
    }
}

proof fn lemma_eswf_tail(c: Seq<Ext>)
    requires
        eswf(c),
        c.len() > 0,
    ensures
        eswf(c.drop_first()),
        ewf(c[0]),
{
    let d = c.drop_first();
    assert forall|i: int| 0 <= i < d.len() implies ewf(#[trigger] d[i]) by {
        assert(d[i] == c[i + 1]);
    }
}

/// Evaluation is linear: `(a + alpha b)(x) = a(x) + alpha b(x)`.
pub proof fn lemma_epoly_combine(a: Seq<Ext>, alpha: Ext, b: Seq<Ext>, x: int)
    requires
        a.len() == b.len(),
    ensures
        epoly(combine(a, alpha, b), x) == eadd(epoly(a, x), emul(alpha, epoly(b, x))),
    decreases a.len(),
{
    let c = combine(a, alpha, b);
    if a.len() == 0 {
        lemma_emul_embed_zero(alpha);
        lemma_eadd_zero(embed(0));
    } else {
        let (a1, b1) = (a.drop_first(), b.drop_first());
        assert(c.drop_first() =~= combine(a1, alpha, b1));
        lemma_epoly_combine(a1, alpha, b1, x);
        let (ea, eb) = (epoly(a1, x), epoly(b1, x));
        lemma_escale_add(x, ea, emul(alpha, eb));
        lemma_emul_scale(x, alpha, eb);
        lemma_emul_dist(alpha, b[0], escale(x, eb));
        lemma_eadd_swap(a[0], emul(alpha, b[0]), escale(x, ea), escale(x, emul(alpha, eb)));
    }
}

/// A product with zero is zero.
pub proof fn lemma_emul_embed_zero(a: Ext)
    ensures
        emul(a, embed(0)) == embed(0),
{
    lemma_escale_embed_zero(0);
    lemma_emul_scale(0, a, embed(0));
    lemma_ewf_ops(a, embed(0), 0);
    lemma_escale_unit(emul(a, embed(0)));
}

/// A polynomial is its even part plus `x` times its odd part, each at `x^2`.
pub proof fn lemma_epoly_split(c: Seq<Ext>, x: int)
    requires
        c.len() % 2 == 0,
    ensures
        epoly(c, x) == eadd(
            epoly(evens(c), fmul(x, x)),
            escale(x, epoly(odds(c), fmul(x, x))),
        ),
    decreases c.len(),
{
    let y = fmul(x, x);
    if c.len() == 0 {
        assert(evens(c).len() == 0 && odds(c).len() == 0);
        lemma_escale_embed_zero(x);
        lemma_eadd_zero(embed(0));
    } else {
        let c1 = c.drop_first();
        let c2 = c1.drop_first();
        lemma_epoly_split(c2, x);
        assert(evens(c).drop_first() =~= evens(c2));
        assert(odds(c).drop_first() =~= odds(c2));
        assert(evens(c)[0] == c[0] && odds(c)[0] == c[1] && c1[0] == c[1]);
        let e = epoly(evens(c2), y);
        let o = epoly(odds(c2), y);
        let r = epoly(c2, x);
        assert(epoly(c1, x) == eadd(c[1], escale(x, r)));
        lemma_escale_add(x, c[1], escale(x, r));
        lemma_escale_fmul(x, x, r);
        lemma_escale_add(y, e, escale(x, o));
        lemma_escale_fmul(y, x, o);
        lemma_escale_fmul(x, y, o);
        lemma_fmul_comm(x, y);
        lemma_escale_add(x, c[1], escale(y, o));
        // c0 + (x c1 + (y e + x y o)) = (c0 + y e) + (x c1 + x y o)
        let (p, q, u, w) = (c[0], escale(x, c[1]), escale(y, e), escale(x, escale(y, o)));
        lemma_eadd_assoc(q, u, w);
        lemma_eadd_comm(q, u);
        lemma_eadd_assoc(u, q, w);
        lemma_eadd_assoc(p, u, eadd(q, w));
    }
}

// The domain.

/// The square of a domain's generator generates the domain of half the size, and its
/// power to half the size is -1.
pub proof fn lemma_half_domain(n: int)
    requires
        domain_size(n),
        n >= 2,
    ensures
        domain_size(n / 2),
        n % 2 == 0,
        domain_generator(n / 2) == fmul(domain_generator(n), domain_generator(n)),
        domain_element(n, n / 2) == P - 1,
        domain_generator(n) != 0,
        canonical(domain_generator(n)),
{
    lemma_log2_half(n);
    let bits = log2(n);
    lemma_pow2_log2(n / 2);
    lemma_root_order(bits);
    lemma_root_range(bits);
    let g = domain_generator(n);
    if g == 0 {
        lemma_fmul_zero(fpow(g, (n / 2 - 1) as nat));
    }
}

/// Elements half a domain apart are negatives of each other, with the same square,
/// which is the element of the half domain.
pub proof fn lemma_element_pair(n: int, i: int)
    requires
        domain_size(n),
        n >= 2,
        0 <= i < n / 2,
    ensures
        domain_element(n, i + n / 2) == fneg(domain_element(n, i)),
        fmul(domain_element(n, i), domain_element(n, i)) == domain_element(n / 2, i),
        fmul(domain_element(n, i + n / 2), domain_element(n, i + n / 2)) == domain_element(
            n / 2,
            i,
        ),
        canonical(domain_element(n, i)),
        domain_element(n, i) != 0,
        fmul(inv_twiddle(domain_generator(n), i), fmul(2, domain_element(n, i))) == 1,
{
    let g = domain_generator(n);
    let h = n / 2;
    let x = domain_element(n, i);
    lemma_half_domain(n);
    lemma_fpow_add(g, h as nat, i as nat);
    assert((i + h) as nat == h as nat + i as nat);
    lemma_fsub_is_add_neg(0, x);
    lemma_fpow_of_mul(g, g, i as nat);
    lemma_fpow_range(g, i as nat);
    let m = P - 1;
    lemma_fmul_swap(m, x, m, x);
    lemma_neg_square();
    lemma_f_range(x, x);
    lemma_fmul_one(fmul(x, x));
    lemma_element_nonzero(g, i as nat);
    lemma_fmul_nonzero(2, x);
    lemma_f_range(2, x);
    lemma_finv(fmul(2, x));
}

pub proof fn lemma_neg_square()
    ensures
        fmul(P - 1, P - 1) == 1,
{
    reveal(fmul);
    assert((P - 1) * (P - 1) == (P - 2) * P + 1) by (nonlinear_arith);
    vstd::arithmetic::div_mod::lemma_fundamental_div_mod_converse_mod(
        (P - 1) * (P - 1),
        P as int,
        P - 2,
        1,
    );
}

/// A product of nonzero elements is nonzero.
pub proof fn lemma_fmul_nonzero(a: int, b: int)
    requires
        0 < a < P,
        0 < b < P,
    ensures
        fmul(a, b) != 0,
{
    if fmul(a, b) == 0 {
        lemma_finv(a);
        lemma_fmul_assoc(finv(a), a, b);
        lemma_fmul_one(b);
        lemma_fmul_zero(finv(a));
    }
}

/// A power of a nonzero element is nonzero.
pub proof fn lemma_element_nonzero(g: int, i: nat)
    requires
        0 < g < P,
    ensures
        0 < fpow(g, i) < P,
    decreases i,
{
    lemma_fpow_range(g, i);
    if i > 0 {
        lemma_element_nonzero(g, (i - 1) as nat);
        lemma_fmul_nonzero(g, fpow(g, (i - 1) as nat));
    }
}

// One folding round.

/// `s + (-1) s = 0`.
pub proof fn lemma_cancel(s: Ext)
    requires
        ewf(s),
    ensures
        eadd(s, escale(P - 1, s)) == embed(0),
        eadd(escale(P - 1, s), s) == embed(0),
{
    lemma_escale_unit(s);
    lemma_escale_fadd(1, P - 1, s);
    lemma_eadd_comm(s, escale(P - 1, s));
    assert(fadd(1, P - 1) == 0) by {
        reveal(fadd);
    }
}

/// `s + s = 2 s`.
proof fn lemma_double(s: Ext)
    requires
        ewf(s),
    ensures
        eadd(s, s) == escale(2, s),
{
    lemma_escale_unit(s);
    lemma_escale_fadd(1, 1, s);
    assert(fadd(1, 1) == 2) by {
        reveal(fadd);
    }
}

/// Folding `e + x o` and `e - x o` gives `e + alpha o`.
proof fn lemma_fold_pair(e: Ext, o: Ext, alpha: Ext, x: int, t: int)
    requires
        ewf(e),
        ewf(o),
        fmul(t, fmul(2, x)) == 1,
    ensures
        fold_value(eadd(e, escale(x, o)), eadd(e, escale(fneg(x), o)), alpha, t) == eadd(
            e,
            emul(alpha, o),
        ),
{
    let m = P - 1;
    let s = escale(x, o);
    let a = eadd(e, s);
    lemma_fsub_is_add_neg(0, x);
    lemma_escale_fmul(m, x, o);
    let ns = escale(m, s);
    let b = eadd(e, ns);
    lemma_ewf_ops(o, o, x);
    lemma_ewf_ops(s, s, m);
    lemma_ewf_ops(e, e, 2);
    lemma_ewf_ops(e, e, m);
    // The even part.
    lemma_eadd_swap(e, s, e, ns);
    lemma_double(e);
    lemma_cancel(s);
    lemma_eadd_zero(escale(2, e));
    lemma_finv(2);
    lemma_escale_fmul(finv(2), 2, e);
    lemma_escale_unit(e);
    assert(escale(finv(2), eadd(a, b)) == e);
    // The odd part.
    lemma_esub_is_add(a, b);
    lemma_escale_add(m, e, ns);
    lemma_escale_fmul(m, m, s);
    lemma_neg_square();
    lemma_escale_unit(s);
    lemma_eadd_swap(e, s, escale(m, e), s);
    lemma_cancel(e);
    lemma_double(s);
    lemma_ewf_ops(s, s, 2);
    lemma_eadd_zero(escale(2, s));
    lemma_escale_fmul(2, x, o);
    lemma_escale_fmul(t, fmul(2, x), o);
    lemma_escale_unit(o);
    assert(escale(t, esub(a, b)) == o);
}

/// Any pair is `e + x o` and `e - x o` with its even part `e` and its odd part `o`.
proof fn lemma_unfold_pair(a: Ext, b: Ext, x: int, t: int)
    requires
        ewf(a),
        ewf(b),
        canonical(x),
        canonical(t),
        fmul(t, fmul(2, x)) == 1,
    ensures
        ({
            let e = escale(finv(2), eadd(a, b));
            let o = escale(t, esub(a, b));
            a == eadd(e, escale(x, o)) && b == eadd(e, escale(fneg(x), o))
        }),
{
    let m = P - 1;
    let h = finv(2);
    let e = escale(h, eadd(a, b));
    let d = esub(a, b);
    let o = escale(t, d);
    // x t is one half.
    lemma_fmul_comm(2, x);
    lemma_fmul_assoc(t, x, 2);
    lemma_fmul_comm(t, x);
    lemma_f_range(x, t);
    lemma_finv_unique(2, fmul(x, t));
    lemma_escale_fmul(x, t, d);
    assert(escale(x, o) == escale(h, d));
    lemma_esub_is_add(a, b);
    let nb = escale(m, b);
    lemma_ewf_ops(a, b, m);
    lemma_ewf_ops(b, b, m);
    lemma_finv(2);
    // e + h d = h ((a + b) + (a - b)) = h (2 a)
    lemma_escale_add(h, eadd(a, b), d);
    lemma_eadd_swap(a, b, a, nb);
    lemma_cancel(b);
    lemma_double(a);
    lemma_ewf_ops(a, a, 2);
    lemma_eadd_zero(escale(2, a));
    lemma_escale_fmul(h, 2, a);
    lemma_escale_unit(a);
    assert(a == eadd(e, escale(x, o)));
    // e - h d = h ((a + b) - (a - b)) = h (2 b)
    lemma_fsub_is_add_neg(0, x);
    lemma_escale_fmul(m, x, o);
    lemma_escale_fmul(m, h, d);
    lemma_escale_fmul(h, m, d);
    lemma_fmul_comm(m, h);
    assert(escale(fneg(x), o) == escale(h, escale(m, d)));
    lemma_escale_add(m, a, nb);
    lemma_escale_fmul(m, m, b);
    lemma_neg_square();
    lemma_escale_unit(b);
    lemma_escale_add(h, eadd(a, b), escale(m, d));
    lemma_eadd_swap(a, b, escale(m, a), b);
    lemma_cancel(a);
    lemma_double(b);
    lemma_ewf_ops(b, b, 2);
    lemma_eadd_zero(escale(2, b));
    lemma_escale_fmul(h, 2, b);
}

/// Folding the values of a polynomial gives the values, on the domain of half the
/// size, of its even part plus `alpha` times its odd part.
pub proof fn lemma_fold_encoding(v: Seq<Ext>, c: Seq<Ext>, n: int, alpha: Ext)
    requires
        domain_size(n),
        n >= 2,
        c.len() % 2 == 0,
        eswf(c),
        is_encoding(v, c, n),
    ensures
        is_encoding(
            fold_step(v, alpha, domain_generator(n)),
            combine(evens(c), alpha, odds(c)),
            n / 2,
        ),
        eswf(combine(evens(c), alpha, odds(c))),
{
    let g = domain_generator(n);
    let h = n / 2;
    let f = fold_step(v, alpha, g);
    let d = combine(evens(c), alpha, odds(c));
    lemma_half_domain(n);
    assert forall|i: int| 0 <= i < h implies #[trigger] f[i] == epoly(d, domain_element(h, i)) by {
        let x = domain_element(n, i);
        let y = domain_element(h, i);
        lemma_element_pair(n, i);
        assert(v[i] == epoly(c, x));
        assert(v[i + h] == epoly(c, fneg(x)));
        lemma_epoly_split(c, x);
        lemma_epoly_split(c, fneg(x));
        lemma_parts_wf(c);
        lemma_epoly_wf(evens(c), y);
        lemma_epoly_wf(odds(c), y);
        lemma_fold_pair(epoly(evens(c), y), epoly(odds(c), y), alpha, x, inv_twiddle(g, i));
        lemma_epoly_combine(evens(c), alpha, odds(c), y);
    }
    assert forall|k: int| 0 <= k < d.len() implies ewf(#[trigger] d[k]) by {
        lemma_ewf_ops(evens(c)[k], emul(alpha, odds(c)[k]), 0);
    }
}

proof fn lemma_parts_wf(c: Seq<Ext>)
    requires
        eswf(c),
    ensures
        eswf(evens(c)),
        eswf(odds(c)),
{
    assert forall|k: int| 0 <= k < evens(c).len() implies ewf(#[trigger] evens(c)[k]) by {
        assert(ewf(c[2 * k]));
    }
    assert forall|k: int| 0 <= k < odds(c).len() implies ewf(#[trigger] odds(c)[k]) by {
        assert(ewf(c[2 * k + 1]));
    }
}

/// Folding a codeword with `2 d` coefficients gives one with `d` coefficients on the
/// domain of half the size.
pub proof fn lemma_fold_in_code(v: Seq<Ext>, n: int, d: nat, alpha: Ext)
    requires
        domain_size(n),
        n >= 2,
        in_code(v, n, 2 * d),
    ensures
        in_code(fold_step(v, alpha, domain_generator(n)), n / 2, d),
{
    let c = choose|c: Seq<Ext>| c.len() == 2 * d && eswf(c) && #[trigger] is_encoding(v, c, n);
    lemma_fold_encoding(v, c, n, alpha);
    let f = combine(evens(c), alpha, odds(c));
    assert(f.len() == d);
}

/// `k` folding rounds take a codeword with `2^k d` coefficients to one with `d`
/// coefficients, whatever the challenges.
pub proof fn lemma_fold_all_in_code(v: Seq<Ext>, n: int, d: nat, alphas: Seq<Ext>)
    requires
        domain_size(n),
        alphas.len() <= log2(n),
        in_code(v, n, pow2(alphas.len()) * d),
    ensures
        in_code(
            fold_all(v, alphas, domain_generator(n)),
            pow2((log2(n) - alphas.len()) as nat) as int,
            d,
        ),
        domain_size(pow2((log2(n) - alphas.len()) as nat) as int),
    decreases alphas.len(),
{
    lemma_pow2_log2(n);
    if alphas.len() == 0 {
        vstd::arithmetic::power2::lemma2_to64();
        assert(pow2(0) * d == d);
    } else {
        let rest = alphas.drop_first();
        if n < 2 {
            assert(n == 1);
        }
        lemma_log2_half(n);
        lemma_half_domain(n);
        lemma_pow2_unfold(alphas.len());
        let k = pow2(rest.len());
        assert((2 * k) * d == 2 * (k * d)) by (nonlinear_arith);
        lemma_fold_in_code(v, n, k * d, alphas[0]);
        lemma_fold_all_in_code(
            fold_step(v, alphas[0], domain_generator(n)),
            n / 2,
            d,
            rest,
        );
    }
}

/// A codeword with one coefficient is constant.
pub proof fn lemma_one_coefficient_constant(v: Seq<Ext>, n: int)
    requires
        in_code(v, n, 1),
    ensures
        forall|i: int, j: int| 0 <= i < n && 0 <= j < n ==> v[i] == v[j],
{
    let c = choose|c: Seq<Ext>| c.len() == 1 && eswf(c) && #[trigger] is_encoding(v, c, n);
    assert forall|i: int| 0 <= i < n implies #[trigger] v[i] == c[0] by {
        let x = domain_element(n, i);
        assert(c.drop_first().len() == 0);
        assert(epoly(c.drop_first(), x) == embed(0));
        lemma_escale_embed_zero(x);
        lemma_eadd_zero(c[0]);
    }
}

/// More coefficients make a larger code.
pub proof fn lemma_in_code_widen(v: Seq<Ext>, n: int, d: nat, e: nat)
    requires
        in_code(v, n, d),
        d <= e,
    ensures
        in_code(v, n, e),
{
    let c = choose|c: Seq<Ext>| c.len() == d && eswf(c) && #[trigger] is_encoding(v, c, n);
    let padded = c + Seq::new((e - d) as nat, |i: int| embed(0));
    assert forall|i: int| 0 <= i < n implies #[trigger] v[i] == epoly(
        padded,
        domain_element(n, i),
    ) by {
        lemma_epoly_pad(c, (e - d) as nat, domain_element(n, i));
    }
    assert(is_encoding(v, padded, n));
}

/// Zero coefficients at the end change no value.
pub proof fn lemma_epoly_pad(c: Seq<Ext>, k: nat, x: int)
    requires
        eswf(c),
    ensures
        epoly(c + Seq::new(k, |i: int| embed(0)), x) == epoly(c, x),
    decreases c.len() + k,
{
    let z = Seq::new(k, |i: int| embed(0));
    let p = c + z;
    if c.len() > 0 {
        lemma_eswf_tail(c);
        lemma_epoly_pad(c.drop_first(), k, x);
        assert(p.drop_first() =~= c.drop_first() + z);
    } else if k > 0 {
        lemma_epoly_pad(c, (k - 1) as nat, x);
        assert(p.drop_first() =~= c + Seq::new((k - 1) as nat, |i: int| embed(0)));
        lemma_escale_embed_zero(x);
        lemma_eadd_zero(embed(0));
    }
}

/// The embedded encoding of a base field message is a codeword.
pub proof fn lemma_encoding_in_code(message: Seq<int>, n: int)
    requires
        forall|i: int| 0 <= i < message.len() ==> canonical(#[trigger] message[i]),
        n >= 0,
    ensures
        in_code(embed_seq(encoding(message, n)), n, message.len()),
{
    let c = embed_seq(message);
    let v = embed_seq(encoding(message, n));
    assert forall|i: int| 0 <= i < n implies #[trigger] v[i] == epoly(c, domain_element(n, i)) by {
        lemma_epoly_embed(message, domain_element(n, i));
    }
    assert(is_encoding(v, c, n));
}

/// Evaluation commutes with the embedding.
proof fn lemma_epoly_embed(c: Seq<int>, x: int)
    ensures
        epoly(embed_seq(c), x) == embed(fpoly(c, x)),
    decreases c.len(),
{
    if c.len() > 0 {
        let t = c.drop_first();
        lemma_epoly_embed(t, x);
        assert(embed_seq(c).drop_first() =~= embed_seq(t));
        lemma_embed_hom(x, fpoly(t, x));
        lemma_embed_hom(c[0], fmul(x, fpoly(t, x)));
    }
}

/// Codewords are closed under linear combination.
pub proof fn lemma_in_code_combine(a: Seq<Ext>, alpha: Ext, b: Seq<Ext>, n: int, d: nat)
    requires
        in_code(a, n, d),
        in_code(b, n, d),
    ensures
        in_code(combine(a, alpha, b), n, d),
{
    let ca = choose|c: Seq<Ext>| c.len() == d && eswf(c) && #[trigger] is_encoding(a, c, n);
    let cb = choose|c: Seq<Ext>| c.len() == d && eswf(c) && #[trigger] is_encoding(b, c, n);
    let c = combine(ca, alpha, cb);
    let v = combine(a, alpha, b);
    assert forall|i: int| 0 <= i < n implies #[trigger] v[i] == epoly(c, domain_element(n, i)) by {
        lemma_epoly_combine(ca, alpha, cb, domain_element(n, i));
        assert(a[i] == epoly(ca, domain_element(n, i)));
        assert(b[i] == epoly(cb, domain_element(n, i)));
    }
    assert forall|k: int| 0 <= k < c.len() implies ewf(#[trigger] c[k]) by {
        lemma_ewf_ops(ca[k], emul(alpha, cb[k]), 0);
    }
    assert(is_encoding(v, c, n));
}

/// A vector whose foldings with the challenges 0 and 1 are both codewords with `d`
/// coefficients is a codeword with `2 d` coefficients.
pub proof fn lemma_unfold_in_code(v: Seq<Ext>, n: int, d: nat)
    requires
        domain_size(n),
        n >= 2,
        v.len() == n,
        eswf(v),
        in_code(fold_step(v, embed(0), domain_generator(n)), n / 2, d),
        in_code(fold_step(v, embed(1), domain_generator(n)), n / 2, d),
    ensures
        in_code(v, n, 2 * d),
{
    let g = domain_generator(n);
    let h = n / 2;
    lemma_half_domain(n);
    let f0 = fold_step(v, embed(0), g);
    let f1 = fold_step(v, embed(1), g);
    let minus = embed(P - 1);
    let fo = combine(f1, minus, f0);
    lemma_in_code_combine(f1, minus, f0, h, d);
    let ce = choose|c: Seq<Ext>| c.len() == d && eswf(c) && #[trigger] is_encoding(f0, c, h);
    let co = choose|c: Seq<Ext>| c.len() == d && eswf(c) && #[trigger] is_encoding(fo, c, h);
    let c = interleave(ce, co);
    assert(evens(c) =~= ce);
    assert(odds(c) =~= co);
    assert forall|i: int| 0 <= i < h implies #[trigger] v[i] == epoly(c, domain_element(n, i))
        && v[i + h] == epoly(c, domain_element(n, i + h)) by {
        let x = domain_element(n, i);
        let y = domain_element(h, i);
        let t = inv_twiddle(g, i);
        lemma_element_pair(n, i);
        lemma_f_range(2, x);
        lemma_fmul_nonzero(2, x);
        lemma_finv(fmul(2, x));
        let (a, b) = (v[i], v[i + h]);
        let e = escale(finv(2), eadd(a, b));
        let o = escale(t, esub(a, b));
        lemma_ewf_ops(eadd(a, b), eadd(a, b), finv(2));
        lemma_ewf_ops(esub(a, b), esub(a, b), t);
        // The two foldings give the even part and the sum of both parts.
        crate::ext::lemma_emul_embed(0, o);
        lemma_escale_unit(o);
        lemma_eadd_zero(e);
        crate::ext::lemma_emul_embed(1, o);
        assert(f0[i] == e);
        assert(f1[i] == eadd(e, o));
        crate::ext::lemma_emul_embed(P - 1, e);
        lemma_eadd_comm(e, o);
        lemma_eadd_assoc(o, e, escale(P - 1, e));
        lemma_cancel(e);
        lemma_eadd_zero(o);
        assert(fo[i] == o);
        assert(e == epoly(ce, y));
        assert(o == epoly(co, y));
        lemma_unfold_pair(a, b, x, t);
        lemma_epoly_split(c, x);
        lemma_epoly_split(c, fneg(x));
    }
    assert forall|i: int| 0 <= i < n implies #[trigger] v[i] == epoly(c, domain_element(n, i)) by {
        if i >= h {
            assert(v[i - h] == epoly(c, domain_element(n, i - h)));
        }
    }
    assert forall|k: int| 0 <= k < c.len() implies ewf(#[trigger] c[k]) by {
        assert(ewf(ce[k / 2]) && ewf(co[k / 2]));
    }
    assert(is_encoding(v, c, n));
}

/// Every folded value has canonical coordinates.
pub proof fn lemma_fold_step_wf(v: Seq<Ext>, alpha: Ext, g: int)
    ensures
        eswf(fold_step(v, alpha, g)),
{
    let f = fold_step(v, alpha, g);
    assert forall|i: int| 0 <= i < f.len() implies ewf(#[trigger] f[i]) by {
        let (a, b) = (v[i], v[i + v.len() / 2]);
        let t = inv_twiddle(g, i);
        lemma_ewf_ops(
            escale(finv(2), eadd(a, b)),
            emul(alpha, escale(t, esub(a, b))),
            0,
        );
    }
}

/// Folding a constant vector gives the constant, whatever the challenge.
pub proof fn lemma_fold_constant(v: Seq<Ext>, n: int, a: Ext, alpha: Ext)
    requires
        domain_size(n),
        n >= 2,
        v.len() == n,
        ewf(a),
        forall|i: int| 0 <= i < n ==> #[trigger] v[i] == a,
    ensures
        fold_step(v, alpha, domain_generator(n)).len() == n / 2,
        forall|i: int|
            0 <= i < n / 2 ==> #[trigger] fold_step(v, alpha, domain_generator(n))[i] == a,
{
    let f = fold_step(v, alpha, domain_generator(n));
    assert forall|i: int| 0 <= i < n / 2 implies #[trigger] f[i] == a by {
        let x = domain_element(n, i);
        lemma_half_domain(n);
        lemma_element_pair(n, i);
        assert(v[i] == a && v[i + n / 2] == a);
        lemma_fold_pair(a, embed(0), alpha, x, inv_twiddle(domain_generator(n), i));
        lemma_escale_embed_zero(x);
        lemma_escale_embed_zero(fneg(x));
        lemma_emul_embed_zero(alpha);
        lemma_eadd_zero(a);
    }
}

} // verus!
