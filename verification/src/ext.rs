//! The quintic extension of the base field by a root of `X^5 + X^2 - 1`.
//!
//! An element is modelled by its five coordinates over the basis
//! `1, X, X^2, X^3, X^4`.

use crate::field::{
    canonical, fadd, fmul, fsub, lemma_fadd_assoc, lemma_fadd_comm, lemma_fadd_zero,
    lemma_fmul_assoc, lemma_fmul_comm, lemma_fmul_dist, lemma_fmul_one, lemma_fmul_zero,
    lemma_fsub_is_add_neg, F, P,
};
use vstd::prelude::*;

verus! {

/// The degree of the extension.
pub const DIMENSION: usize = 5;

/// An extension element by its coordinates.
pub struct Ext {
    pub c0: int,
    pub c1: int,
    pub c2: int,
    pub c3: int,
    pub c4: int,
}

/// All coordinates are canonical.
pub open spec fn ewf(a: Ext) -> bool {
    canonical(a.c0) && canonical(a.c1) && canonical(a.c2) && canonical(a.c3) && canonical(a.c4)
}

/// The base field element `x` as an extension element.
pub open spec fn embed(x: int) -> Ext {
    Ext { c0: x, c1: 0, c2: 0, c3: 0, c4: 0 }
}

/// Sum.
#[verifier::opaque]
pub open spec fn eadd(a: Ext, b: Ext) -> Ext {
    Ext {
        c0: fadd(a.c0, b.c0),
        c1: fadd(a.c1, b.c1),
        c2: fadd(a.c2, b.c2),
        c3: fadd(a.c3, b.c3),
        c4: fadd(a.c4, b.c4),
    }
}

/// Difference.
#[verifier::opaque]
pub open spec fn esub(a: Ext, b: Ext) -> Ext {
    Ext {
        c0: fsub(a.c0, b.c0),
        c1: fsub(a.c1, b.c1),
        c2: fsub(a.c2, b.c2),
        c3: fsub(a.c3, b.c3),
        c4: fsub(a.c4, b.c4),
    }
}

/// Product with a base field element.
#[verifier::opaque]
pub open spec fn escale(s: int, a: Ext) -> Ext {
    Ext {
        c0: fmul(s, a.c0),
        c1: fmul(s, a.c1),
        c2: fmul(s, a.c2),
        c3: fmul(s, a.c3),
        c4: fmul(s, a.c4),
    }
}

/// Product with `X`, where `X^5 = 1 - X^2`.
#[verifier::opaque]
pub open spec fn eshift(a: Ext) -> Ext {
    Ext { c0: a.c4, c1: a.c0, c2: fsub(a.c1, a.c4), c3: a.c2, c4: a.c3 }
}

/// Product: the sum of `a_i X^i b`.
#[verifier::opaque]
pub open spec fn emul(a: Ext, b: Ext) -> Ext {
    let b1 = eshift(b);
    let b2 = eshift(b1);
    let b3 = eshift(b2);
    let b4 = eshift(b3);
    esum5(
        escale(a.c0, b),
        escale(a.c1, b1),
        escale(a.c2, b2),
        escale(a.c3, b3),
        escale(a.c4, b4),
    )
}

/// A sum of five terms.
pub open spec fn esum5(a: Ext, b: Ext, c: Ext, d: Ext, e: Ext) -> Ext {
    eadd(a, eadd(b, eadd(c, eadd(d, e))))
}

/// Power.
pub open spec fn epow(a: Ext, n: nat) -> Ext
    decreases n,
{
    if n == 0 {
        embed(1)
    } else {
        emul(a, epow(a, (n - 1) as nat))
    }
}

pub proof fn lemma_ewf_ops(a: Ext, b: Ext, s: int)
    ensures
        ewf(eadd(a, b)),
        ewf(esub(a, b)),
        ewf(escale(s, a)),
        ewf(emul(a, b)),
        ewf(a) ==> ewf(eshift(a)),
{
    reveal(eadd);
    reveal(esub);
    reveal(escale);
    reveal(eshift);
    reveal(emul);
    reveal(fadd);
    reveal(fsub);
    reveal(fmul);
}

pub proof fn lemma_eadd_comm(a: Ext, b: Ext)
    ensures
        eadd(a, b) == eadd(b, a),
{
    reveal(eadd);
    lemma_fadd_comm(a.c0, b.c0);
    lemma_fadd_comm(a.c1, b.c1);
    lemma_fadd_comm(a.c2, b.c2);
    lemma_fadd_comm(a.c3, b.c3);
    lemma_fadd_comm(a.c4, b.c4);
}

pub proof fn lemma_eadd_assoc(a: Ext, b: Ext, c: Ext)
    ensures
        eadd(eadd(a, b), c) == eadd(a, eadd(b, c)),
{
    reveal(eadd);
    lemma_fadd_assoc(a.c0, b.c0, c.c0);
    lemma_fadd_assoc(a.c1, b.c1, c.c1);
    lemma_fadd_assoc(a.c2, b.c2, c.c2);
    lemma_fadd_assoc(a.c3, b.c3, c.c3);
    lemma_fadd_assoc(a.c4, b.c4, c.c4);
}

pub proof fn lemma_eadd_zero(a: Ext)
    requires
        ewf(a),
    ensures
        eadd(a, embed(0)) == a,
        eadd(embed(0), a) == a,
{
    reveal(eadd);
    lemma_fadd_zero(a.c0);
    lemma_fadd_zero(a.c1);
    lemma_fadd_zero(a.c2);
    lemma_fadd_zero(a.c3);
    lemma_fadd_zero(a.c4);
}

/// `(a + b) + (c + d) = (a + c) + (b + d)`.
pub proof fn lemma_eadd_swap(a: Ext, b: Ext, c: Ext, d: Ext)
    ensures
        eadd(eadd(a, b), eadd(c, d)) == eadd(eadd(a, c), eadd(b, d)),
{
    lemma_eadd_assoc(a, b, eadd(c, d));
    lemma_eadd_assoc(b, c, d);
    lemma_eadd_comm(b, c);
    lemma_eadd_assoc(c, b, d);
    lemma_eadd_assoc(a, c, eadd(b, d));
}

pub proof fn lemma_esub_is_add(a: Ext, b: Ext)
    ensures
        esub(a, b) == eadd(a, escale(P - 1, b)),
{
    reveal(eadd);
    reveal(esub);
    reveal(escale);
    lemma_fsub_is_add_neg(a.c0, b.c0);
    lemma_fsub_is_add_neg(a.c1, b.c1);
    lemma_fsub_is_add_neg(a.c2, b.c2);
    lemma_fsub_is_add_neg(a.c3, b.c3);
    lemma_fsub_is_add_neg(a.c4, b.c4);
}

pub proof fn lemma_escale_add(s: int, a: Ext, b: Ext)
    ensures
        escale(s, eadd(a, b)) == eadd(escale(s, a), escale(s, b)),
{
    reveal(eadd);
    reveal(escale);
    lemma_fmul_dist(s, a.c0, b.c0);
    lemma_fmul_dist(s, a.c1, b.c1);
    lemma_fmul_dist(s, a.c2, b.c2);
    lemma_fmul_dist(s, a.c3, b.c3);
    lemma_fmul_dist(s, a.c4, b.c4);
}

pub proof fn lemma_escale_fadd(s: int, t: int, a: Ext)
    ensures
        escale(fadd(s, t), a) == eadd(escale(s, a), escale(t, a)),
{
    reveal(eadd);
    reveal(escale);
    lemma_fmul_dist_left(s, t, a.c0);
    lemma_fmul_dist_left(s, t, a.c1);
    lemma_fmul_dist_left(s, t, a.c2);
    lemma_fmul_dist_left(s, t, a.c3);
    lemma_fmul_dist_left(s, t, a.c4);
}

proof fn lemma_fmul_dist_left(s: int, t: int, x: int)
    ensures
        fmul(fadd(s, t), x) == fadd(fmul(s, x), fmul(t, x)),
{
    lemma_fmul_comm(fadd(s, t), x);
    lemma_fmul_comm(s, x);
    lemma_fmul_comm(t, x);
    lemma_fmul_dist(x, s, t);
}

pub proof fn lemma_escale_fmul(s: int, t: int, a: Ext)
    ensures
        escale(fmul(s, t), a) == escale(s, escale(t, a)),
{
    reveal(escale);
    lemma_fmul_assoc(s, t, a.c0);
    lemma_fmul_assoc(s, t, a.c1);
    lemma_fmul_assoc(s, t, a.c2);
    lemma_fmul_assoc(s, t, a.c3);
    lemma_fmul_assoc(s, t, a.c4);
}

pub proof fn lemma_escale_unit(a: Ext)
    requires
        ewf(a),
    ensures
        escale(1, a) == a,
        escale(0, a) == embed(0),
{
    reveal(escale);
    lemma_fmul_one(a.c0);
    lemma_fmul_one(a.c1);
    lemma_fmul_one(a.c2);
    lemma_fmul_one(a.c3);
    lemma_fmul_one(a.c4);
    lemma_fmul_zero(a.c0);
    lemma_fmul_zero(a.c1);
    lemma_fmul_zero(a.c2);
    lemma_fmul_zero(a.c3);
    lemma_fmul_zero(a.c4);
}

pub proof fn lemma_escale_embed_zero(s: int)
    ensures
        escale(s, embed(0)) == embed(0),
{
    reveal(escale);
    lemma_fmul_zero(s);
}

proof fn lemma_eshift_add(a: Ext, b: Ext)
    ensures
        eshift(eadd(a, b)) == eadd(eshift(a), eshift(b)),
{
    reveal(eadd);
    reveal(eshift);
    lemma_fsub_is_add_neg(fadd(a.c1, b.c1), fadd(a.c4, b.c4));
    lemma_fsub_is_add_neg(a.c1, a.c4);
    lemma_fsub_is_add_neg(b.c1, b.c4);
    let m = P - 1;
    lemma_fmul_dist(m, a.c4, b.c4);
    let (x, y, u, v) = (a.c1, b.c1, fmul(m, a.c4), fmul(m, b.c4));
    lemma_fadd_assoc(x, y, fadd(u, v));
    lemma_fadd_assoc(y, u, v);
    lemma_fadd_comm(y, u);
    lemma_fadd_assoc(u, y, v);
    lemma_fadd_assoc(x, u, fadd(y, v));
}

proof fn lemma_eshift_scale(s: int, a: Ext)
    ensures
        eshift(escale(s, a)) == escale(s, eshift(a)),
{
    reveal(escale);
    reveal(eshift);
    crate::field::lemma_fmul_dist_sub(s, a.c1, a.c4);
}

/// `X^5 = 1 - X^2`.
proof fn lemma_eshift_five(b: Ext)
    ensures
        ({
            let b2 = eshift(eshift(b));
            eshift(eshift(eshift(b2))) == esub(b, b2) || !ewf(b)
        }),
{
    if ewf(b) {
        reveal(eshift);
        reveal(esub);
        let b2 = eshift(eshift(b));
        let b5 = eshift(eshift(eshift(b2)));
        assert(b2 == (Ext { c0: b.c3, c1: b.c4, c2: fsub(b.c0, b.c3), c3: fsub(b.c1, b.c4), c4: b.c2 }));
        assert(b5 == esub(b, b2)) by {
            reveal(fsub);
        }
    }
}

proof fn lemma_esum5_add(
    a0: Ext,
    a1: Ext,
    a2: Ext,
    a3: Ext,
    a4: Ext,
    b0: Ext,
    b1: Ext,
    b2: Ext,
    b3: Ext,
    b4: Ext,
)
    ensures
        esum5(eadd(a0, b0), eadd(a1, b1), eadd(a2, b2), eadd(a3, b3), eadd(a4, b4)) == eadd(
            esum5(a0, a1, a2, a3, a4),
            esum5(b0, b1, b2, b3, b4),
        ),
{
    lemma_eadd_swap(a3, b3, a4, b4);
    let (a34, b34) = (eadd(a3, a4), eadd(b3, b4));
    lemma_eadd_swap(a2, b2, a34, b34);
    let (a24, b24) = (eadd(a2, a34), eadd(b2, b34));
    lemma_eadd_swap(a1, b1, a24, b24);
    let (a14, b14) = (eadd(a1, a24), eadd(b1, b24));
    lemma_eadd_swap(a0, b0, a14, b14);
}

proof fn lemma_esum5_scale(s: int, a: Ext, b: Ext, c: Ext, d: Ext, e: Ext)
    ensures
        escale(s, esum5(a, b, c, d, e)) == esum5(
            escale(s, a),
            escale(s, b),
            escale(s, c),
            escale(s, d),
            escale(s, e),
        ),
{
    lemma_escale_add(s, d, e);
    lemma_escale_add(s, c, eadd(d, e));
    lemma_escale_add(s, b, eadd(c, eadd(d, e)));
    lemma_escale_add(s, a, eadd(b, eadd(c, eadd(d, e))));
}

proof fn lemma_esum5_shift(a: Ext, b: Ext, c: Ext, d: Ext, e: Ext)
    ensures
        eshift(esum5(a, b, c, d, e)) == esum5(eshift(a), eshift(b), eshift(c), eshift(d), eshift(e)),
{
    lemma_eshift_add(d, e);
    lemma_eshift_add(c, eadd(d, e));
    lemma_eshift_add(b, eadd(c, eadd(d, e)));
    lemma_eshift_add(a, eadd(b, eadd(c, eadd(d, e))));
}

/// Multiplication distributes over addition on the right.
pub proof fn lemma_emul_dist(a: Ext, b: Ext, c: Ext)
    ensures
        emul(a, eadd(b, c)) == eadd(emul(a, b), emul(a, c)),
{
    reveal(emul);
    let (b1, c1) = (eshift(b), eshift(c));
    let (b2, c2) = (eshift(b1), eshift(c1));
    let (b3, c3) = (eshift(b2), eshift(c2));
    let (b4, c4) = (eshift(b3), eshift(c3));
    lemma_eshift_add(b, c);
    lemma_eshift_add(b1, c1);
    lemma_eshift_add(b2, c2);
    lemma_eshift_add(b3, c3);
    lemma_escale_add(a.c0, b, c);
    lemma_escale_add(a.c1, b1, c1);
    lemma_escale_add(a.c2, b2, c2);
    lemma_escale_add(a.c3, b3, c3);
    lemma_escale_add(a.c4, b4, c4);
    lemma_esum5_add(
        escale(a.c0, b),
        escale(a.c1, b1),
        escale(a.c2, b2),
        escale(a.c3, b3),
        escale(a.c4, b4),
        escale(a.c0, c),
        escale(a.c1, c1),
        escale(a.c2, c2),
        escale(a.c3, c3),
        escale(a.c4, c4),
    );
}

/// Multiplication distributes over addition on the left.
pub proof fn lemma_emul_dist_left(a: Ext, b: Ext, c: Ext)
    ensures
        emul(eadd(a, b), c) == eadd(emul(a, c), emul(b, c)),
{
    reveal(emul);
    let c1 = eshift(c);
    let c2 = eshift(c1);
    let c3 = eshift(c2);
    let c4 = eshift(c3);
    assert(emul(eadd(a, b), c) == esum5(
        eadd(escale(a.c0, c), escale(b.c0, c)),
        eadd(escale(a.c1, c1), escale(b.c1, c1)),
        eadd(escale(a.c2, c2), escale(b.c2, c2)),
        eadd(escale(a.c3, c3), escale(b.c3, c3)),
        eadd(escale(a.c4, c4), escale(b.c4, c4)),
    )) by {
        assert(eadd(a, b).c0 == fadd(a.c0, b.c0) && eadd(a, b).c1 == fadd(a.c1, b.c1) && eadd(
            a,
            b,
        ).c2 == fadd(a.c2, b.c2) && eadd(a, b).c3 == fadd(a.c3, b.c3) && eadd(a, b).c4 == fadd(
            a.c4,
            b.c4,
        )) by {
            reveal(eadd);
        }
        lemma_escale_fadd(a.c0, b.c0, c);
        lemma_escale_fadd(a.c1, b.c1, c1);
        lemma_escale_fadd(a.c2, b.c2, c2);
        lemma_escale_fadd(a.c3, b.c3, c3);
        lemma_escale_fadd(a.c4, b.c4, c4);
    }
    lemma_esum5_add(
        escale(a.c0, c),
        escale(a.c1, c1),
        escale(a.c2, c2),
        escale(a.c3, c3),
        escale(a.c4, c4),
        escale(b.c0, c),
        escale(b.c1, c1),
        escale(b.c2, c2),
        escale(b.c3, c3),
        escale(b.c4, c4),
    );
}

proof fn lemma_escale_comm(s: int, t: int, a: Ext)
    ensures
        escale(s, escale(t, a)) == escale(t, escale(s, a)),
{
    lemma_escale_fmul(s, t, a);
    lemma_escale_fmul(t, s, a);
    lemma_fmul_comm(s, t);
}

/// Scalars pass through a product.
pub proof fn lemma_emul_scale(s: int, a: Ext, b: Ext)
    ensures
        emul(a, escale(s, b)) == escale(s, emul(a, b)),
        emul(escale(s, a), b) == escale(s, emul(a, b)),
{
    reveal(emul);
    let b1 = eshift(b);
    let b2 = eshift(b1);
    let b3 = eshift(b2);
    let b4 = eshift(b3);
    lemma_esum5_scale(
        s,
        escale(a.c0, b),
        escale(a.c1, b1),
        escale(a.c2, b2),
        escale(a.c3, b3),
        escale(a.c4, b4),
    );
    lemma_eshift_scale(s, b);
    lemma_eshift_scale(s, b1);
    lemma_eshift_scale(s, b2);
    lemma_eshift_scale(s, b3);
    lemma_escale_comm(s, a.c0, b);
    lemma_escale_comm(s, a.c1, b1);
    lemma_escale_comm(s, a.c2, b2);
    lemma_escale_comm(s, a.c3, b3);
    lemma_escale_comm(s, a.c4, b4);
    let sa = escale(s, a);
    assert(sa.c0 == fmul(s, a.c0) && sa.c1 == fmul(s, a.c1) && sa.c2 == fmul(s, a.c2) && sa.c3
        == fmul(s, a.c3) && sa.c4 == fmul(s, a.c4)) by {
        reveal(escale);
    }
    lemma_escale_fmul(s, a.c0, b);
    lemma_escale_fmul(s, a.c1, b1);
    lemma_escale_fmul(s, a.c2, b2);
    lemma_escale_fmul(s, a.c3, b3);
    lemma_escale_fmul(s, a.c4, b4);
}

/// `a (X b) = X (a b)`.
proof fn lemma_emul_shift_right(a: Ext, b: Ext)
    ensures
        emul(a, eshift(b)) == eshift(emul(a, b)),
{
    reveal(emul);
    let b1 = eshift(b);
    let b2 = eshift(b1);
    let b3 = eshift(b2);
    let b4 = eshift(b3);
    lemma_esum5_shift(
        escale(a.c0, b),
        escale(a.c1, b1),
        escale(a.c2, b2),
        escale(a.c3, b3),
        escale(a.c4, b4),
    );
    lemma_eshift_scale(a.c0, b);
    lemma_eshift_scale(a.c1, b1);
    lemma_eshift_scale(a.c2, b2);
    lemma_eshift_scale(a.c3, b3);
    lemma_eshift_scale(a.c4, b4);
}

/// `(X a) b = X (a b)`.
proof fn lemma_emul_shift_left(a: Ext, b: Ext)
    requires
        ewf(b),
    ensures
        emul(eshift(a), b) == eshift(emul(a, b)),
{
    reveal(emul);
    let b1 = eshift(b);
    let b2 = eshift(b1);
    let b3 = eshift(b2);
    let b4 = eshift(b3);
    lemma_esum5_shift(
        escale(a.c0, b),
        escale(a.c1, b1),
        escale(a.c2, b2),
        escale(a.c3, b3),
        escale(a.c4, b4),
    );
    lemma_eshift_scale(a.c0, b);
    lemma_eshift_scale(a.c1, b1);
    lemma_eshift_scale(a.c2, b2);
    lemma_eshift_scale(a.c3, b3);
    lemma_eshift_scale(a.c4, b4);
    lemma_eshift_five(b);
    lemma_esub_is_add(b, b2);
    let m = P - 1;
    let t0 = escale(a.c4, b);
    let n = escale(a.c4, escale(m, b2));
    let t1 = escale(a.c0, b1);
    let t2 = escale(a.c1, b2);
    let t3 = escale(a.c2, b3);
    let t4 = escale(a.c3, b4);
    lemma_escale_add(a.c4, b, escale(m, b2));
    assert(eshift(emul(a, b)) == esum5(t1, t2, t3, t4, eadd(t0, n)));
    let sa = eshift(a);
    assert(sa.c0 == a.c4 && sa.c1 == a.c0 && sa.c2 == fsub(a.c1, a.c4) && sa.c3 == a.c2 && sa.c4
        == a.c3) by {
        reveal(eshift);
    }
    lemma_fsub_is_add_neg(a.c1, a.c4);
    lemma_escale_fadd(a.c1, fmul(m, a.c4), b2);
    lemma_fmul_comm(m, a.c4);
    lemma_escale_fmul(a.c4, m, b2);
    assert(emul(sa, b) == esum5(t0, t1, eadd(t2, n), t3, t4));
    // t1 + (t2 + (t3 + (t4 + (t0 + n)))) = t0 + (t1 + ((t2 + n) + (t3 + t4)))
    let t34 = eadd(t3, t4);
    lemma_eadd_assoc(t3, t4, eadd(t0, n));
    lemma_eadd_assoc(t2, t34, eadd(t0, n));
    lemma_eadd_comm(t0, n);
    lemma_eadd_swap(t2, t34, n, t0);
    lemma_eadd_comm(t34, t0);
    let u = eadd(t2, n);
    // u + (t0 + t34) = t0 + (u + t34)
    lemma_eadd_assoc(u, t0, t34);
    lemma_eadd_comm(u, t0);
    lemma_eadd_assoc(t0, u, t34);
    let v = eadd(u, t34);
    lemma_eadd_assoc(t1, t0, v);
    lemma_eadd_comm(t1, t0);
    lemma_eadd_assoc(t0, t1, v);
}

/// An embedded scalar multiplies as a scalar.
pub proof fn lemma_emul_embed(s: int, b: Ext)
    requires
        ewf(b),
    ensures
        emul(embed(s), b) == escale(s, b),
{
    reveal(emul);
    let b1 = eshift(b);
    let b2 = eshift(b1);
    let b3 = eshift(b2);
    let b4 = eshift(b3);
    lemma_ewf_ops(b, b, 0);
    lemma_ewf_ops(b1, b, 0);
    lemma_ewf_ops(b2, b, 0);
    lemma_ewf_ops(b3, b, 0);
    lemma_escale_unit(b1);
    lemma_escale_unit(b2);
    lemma_escale_unit(b3);
    lemma_escale_unit(b4);
    lemma_ewf_ops(b, b, s);
    lemma_eadd_zero(embed(0));
    lemma_eadd_zero(escale(s, b));
}

/// An element is the combination of its coordinates with the powers of `X`.
proof fn lemma_coordinates(b: Ext)
    requires
        ewf(b),
    ensures
        emul(b, embed(1)) == b,
{
    reveal(emul);
    reveal(escale);
    reveal(eshift);
    reveal(eadd);
    let b1 = eshift(embed(1));
    assert(fsub(0, 0) == 0) by {
        reveal(fsub);
    }
    assert(b1 == (Ext { c0: 0, c1: 1, c2: 0, c3: 0, c4: 0 }));
    let b2 = eshift(b1);
    assert(fsub(1, 0) == 1) by {
        reveal(fsub);
    }
    assert(b2 == (Ext { c0: 0, c1: 0, c2: 1, c3: 0, c4: 0 }));
    let b3 = eshift(b2);
    assert(b3 == (Ext { c0: 0, c1: 0, c2: 0, c3: 1, c4: 0 }));
    let b4 = eshift(b3);
    assert(b4 == (Ext { c0: 0, c1: 0, c2: 0, c3: 0, c4: 1 }));
    lemma_fmul_one(b.c0);
    lemma_fmul_one(b.c1);
    lemma_fmul_one(b.c2);
    lemma_fmul_one(b.c3);
    lemma_fmul_one(b.c4);
    lemma_fmul_zero(b.c0);
    lemma_fmul_zero(b.c1);
    lemma_fmul_zero(b.c2);
    lemma_fmul_zero(b.c3);
    lemma_fmul_zero(b.c4);
    lemma_fadd_zero(0);
    lemma_fadd_zero(b.c0);
    lemma_fadd_zero(b.c1);
    lemma_fadd_zero(b.c2);
    lemma_fadd_zero(b.c3);
    lemma_fadd_zero(b.c4);
}

/// One is neutral.
pub proof fn lemma_emul_one(a: Ext)
    requires
        ewf(a),
    ensures
        emul(a, embed(1)) == a,
        emul(embed(1), a) == a,
{
    lemma_coordinates(a);
    lemma_emul_embed(1, a);
    lemma_escale_unit(a);
}

/// Multiplication is commutative.
pub proof fn lemma_emul_comm(a: Ext, b: Ext)
    requires
        ewf(a),
        ewf(b),
    ensures
        emul(a, b) == emul(b, a),
{
    let e = embed(1);
    let e1 = eshift(e);
    let e2 = eshift(e1);
    let e3 = eshift(e2);
    let e4 = eshift(e3);
    lemma_emul_one(a);
    lemma_coordinates(b);
    // a X^j = X^j a
    lemma_emul_shift_right(a, e);
    lemma_emul_shift_right(a, e1);
    lemma_emul_shift_right(a, e2);
    lemma_emul_shift_right(a, e3);
    let a1 = eshift(a);
    let a2 = eshift(a1);
    let a3 = eshift(a2);
    let a4 = eshift(a3);
    lemma_emul_scale(b.c0, a, e);
    lemma_emul_scale(b.c1, a, e1);
    lemma_emul_scale(b.c2, a, e2);
    lemma_emul_scale(b.c3, a, e3);
    lemma_emul_scale(b.c4, a, e4);
    let (t0, t1, t2, t3, t4) = (
        escale(b.c0, e),
        escale(b.c1, e1),
        escale(b.c2, e2),
        escale(b.c3, e3),
        escale(b.c4, e4),
    );
    lemma_emul_dist(a, t3, t4);
    lemma_emul_dist(a, t2, eadd(t3, t4));
    lemma_emul_dist(a, t1, eadd(t2, eadd(t3, t4)));
    lemma_emul_dist(a, t0, eadd(t1, eadd(t2, eadd(t3, t4))));
    assert(b == esum5(t0, t1, t2, t3, t4)) by {
        reveal(emul);
    }
    assert(emul(b, a) == esum5(
        escale(b.c0, a),
        escale(b.c1, a1),
        escale(b.c2, a2),
        escale(b.c3, a3),
        escale(b.c4, a4),
    )) by {
        reveal(emul);
    }
}

/// Multiplication is associative.
pub proof fn lemma_emul_assoc(a: Ext, b: Ext, c: Ext)
    requires
        ewf(c),
    ensures
        emul(emul(a, b), c) == emul(a, emul(b, c)),
{
    let b1 = eshift(b);
    let b2 = eshift(b1);
    let b3 = eshift(b2);
    let b4 = eshift(b3);
    let (t0, t1, t2, t3, t4) = (
        escale(a.c0, b),
        escale(a.c1, b1),
        escale(a.c2, b2),
        escale(a.c3, b3),
        escale(a.c4, b4),
    );
    assert(emul(a, b) == esum5(t0, t1, t2, t3, t4)) by {
        reveal(emul);
    }
    lemma_emul_dist_left(t3, t4, c);
    lemma_emul_dist_left(t2, eadd(t3, t4), c);
    lemma_emul_dist_left(t1, eadd(t2, eadd(t3, t4)), c);
    lemma_emul_dist_left(t0, eadd(t1, eadd(t2, eadd(t3, t4))), c);
    lemma_emul_scale(a.c0, b, c);
    lemma_emul_scale(a.c1, b1, c);
    lemma_emul_scale(a.c2, b2, c);
    lemma_emul_scale(a.c3, b3, c);
    lemma_emul_scale(a.c4, b4, c);
    lemma_emul_shift_left(b, c);
    lemma_emul_shift_left(b1, c);
    lemma_emul_shift_left(b2, c);
    lemma_emul_shift_left(b3, c);
    let d = emul(b, c);
    let d1 = eshift(d);
    let d2 = eshift(d1);
    let d3 = eshift(d2);
    let d4 = eshift(d3);
    assert(emul(a, d) == esum5(
        escale(a.c0, d),
        escale(a.c1, d1),
        escale(a.c2, d2),
        escale(a.c3, d3),
        escale(a.c4, d4),
    )) by {
        reveal(emul);
    }
}

/// The embedding respects the operations.
pub proof fn lemma_embed_hom(x: int, y: int)
    ensures
        embed(fadd(x, y)) == eadd(embed(x), embed(y)),
        embed(fsub(x, y)) == esub(embed(x), embed(y)),
        embed(fmul(x, y)) == escale(x, embed(y)),
{
    reveal(eadd);
    reveal(esub);
    reveal(escale);
    lemma_fadd_zero(0);
    lemma_fmul_zero(x);
    assert(fsub(0, 0) == 0) by {
        reveal(fsub);
    }
}

pub proof fn lemma_epow_wf(a: Ext, n: nat)
    ensures
        ewf(epow(a, n)),
{
    if n > 0 {
        lemma_ewf_ops(a, epow(a, (n - 1) as nat), 0);
    }
}

/// The coordinates of a five-element slice of base field elements.
pub open spec fn ext_of(c: Seq<int>) -> Ext {
    Ext { c0: c[0], c1: c[1], c2: c[2], c3: c[3], c4: c[4] }
}

/// The coordinates as a sequence.
pub open spec fn coords(a: Ext) -> Seq<int> {
    seq![a.c0, a.c1, a.c2, a.c3, a.c4]
}

/// The views of a sequence of base field elements.
pub open spec fn fseq(s: Seq<F>) -> Seq<int> {
    Seq::new(s.len(), |i: int| s[i]@)
}

/// The views of a sequence of extension elements.
pub open spec fn eseq(s: Seq<EF>) -> Seq<Ext> {
    Seq::new(s.len(), |i: int| s[i]@)
}

/// The embedding of a sequence of base field elements.
pub open spec fn embed_seq(s: Seq<int>) -> Seq<Ext> {
    Seq::new(s.len(), |i: int| embed(s[i]))
}

/// Every element of the sequence has canonical coordinates.
pub open spec fn eswf(s: Seq<Ext>) -> bool {
    forall|i: int| 0 <= i < s.len() ==> ewf(#[trigger] s[i])
}

/// An element of the extension field.
#[derive(Clone, Copy, Debug)]
pub struct EF {
    /// Coordinates over the basis `1, X, X^2, X^3, X^4`.
    pub coeffs: [F; 5],
}

impl View for EF {
    type V = Ext;

    open spec fn view(&self) -> Ext {
        Ext {
            c0: self.coeffs@[0]@,
            c1: self.coeffs@[1]@,
            c2: self.coeffs@[2]@,
            c3: self.coeffs@[3]@,
            c4: self.coeffs@[4]@,
        }
    }
}

impl PartialEq for EF {
    fn eq(&self, other: &Self) -> (r: bool) {
        self.coeffs[0] == other.coeffs[0] && self.coeffs[1] == other.coeffs[1] && self.coeffs[2]
            == other.coeffs[2] && self.coeffs[3] == other.coeffs[3] && self.coeffs[4]
            == other.coeffs[4]
    }
}

impl vstd::std_specs::cmp::PartialEqSpecImpl for EF {
    open spec fn obeys_eq_spec() -> bool {
        true
    }

    open spec fn eq_spec(&self, other: &Self) -> bool {
        self@ == other@
    }
}

impl Eq for EF {

}

impl EF {
    /// The coordinates of a view are canonical.
    pub broadcast proof fn lemma_view_wf(self)
        ensures
            ewf(#[trigger] self@),
    {
        self.coeffs@[0].lemma_view_range();
        self.coeffs@[1].lemma_view_range();
        self.coeffs@[2].lemma_view_range();
        self.coeffs@[3].lemma_view_range();
        self.coeffs@[4].lemma_view_range();
    }

    /// The embedding of a base field element.
    pub fn from(x: F) -> (r: EF)
        ensures
            r@ == embed(x@),
    {
        let z = F::zero();
        EF { coeffs: [x, z, z, z, z] }
    }

    pub fn zero() -> (r: EF)
        ensures
            r@ == embed(0),
    {
        EF::from(F::zero())
    }

    pub fn one() -> (r: EF)
        ensures
            r@ == embed(1),
    {
        EF::from(F::one())
    }

    /// The element with the given coordinates; there must be five.
    pub fn from_basis_coefficients_slice(c: &[F]) -> (r: Option<EF>)
        ensures
            r is Some <==> c@.len() == DIMENSION,
            r is Some ==> r->0@ == ext_of(fseq(c@)),
    {
        if c.len() == DIMENSION {
            Some(EF { coeffs: [c[0], c[1], c[2], c[3], c[4]] })
        } else {
            None
        }
    }

    pub fn add(self, rhs: EF) -> (r: EF)
        ensures
            r@ == eadd(self@, rhs@),
    {
        proof {
            reveal(eadd);
        }
        EF {
            coeffs: [
                self.coeffs[0].add(rhs.coeffs[0]),
                self.coeffs[1].add(rhs.coeffs[1]),
                self.coeffs[2].add(rhs.coeffs[2]),
                self.coeffs[3].add(rhs.coeffs[3]),
                self.coeffs[4].add(rhs.coeffs[4]),
            ],
        }
    }

    pub fn sub(self, rhs: EF) -> (r: EF)
        ensures
            r@ == esub(self@, rhs@),
    {
        proof {
            reveal(esub);
        }
        EF {
            coeffs: [
                self.coeffs[0].sub(rhs.coeffs[0]),
                self.coeffs[1].sub(rhs.coeffs[1]),
                self.coeffs[2].sub(rhs.coeffs[2]),
                self.coeffs[3].sub(rhs.coeffs[3]),
                self.coeffs[4].sub(rhs.coeffs[4]),
            ],
        }
    }

    /// Product with a base field element.
    pub fn scale(self, s: F) -> (r: EF)
        ensures
            r@ == escale(s@, self@),
    {
        proof {
            reveal(escale);
        }
        EF {
            coeffs: [
                s.mul(self.coeffs[0]),
                s.mul(self.coeffs[1]),
                s.mul(self.coeffs[2]),
                s.mul(self.coeffs[3]),
                s.mul(self.coeffs[4]),
            ],
        }
    }

    /// Product with `X`.
    fn shift(self) -> (r: EF)
        ensures
            r@ == eshift(self@),
    {
        proof {
            reveal(eshift);
        }
        EF {
            coeffs: [
                self.coeffs[4],
                self.coeffs[0],
                self.coeffs[1].sub(self.coeffs[4]),
                self.coeffs[2],
                self.coeffs[3],
            ],
        }
    }

    pub fn mul(self, rhs: EF) -> (r: EF)
        ensures
            r@ == emul(self@, rhs@),
    {
        let b1 = rhs.shift();
        let b2 = b1.shift();
        let b3 = b2.shift();
        let b4 = b3.shift();
        proof {
            reveal(emul);
        }
        let high = b2.scale(self.coeffs[2]).add(
            b3.scale(self.coeffs[3]).add(b4.scale(self.coeffs[4])),
        );
        rhs.scale(self.coeffs[0]).add(b1.scale(self.coeffs[1]).add(high))
    }
}

} // verus!
