//! Why checking a combination checks every codeword, and why a codeword can be
//! reconstructed from few of its values.

use crate::code::{epoly, in_code, is_encoding, lemma_fmul_nonzero};
use crate::ext::{eadd, embed, emul, escale, eswf, ewf, lemma_emul_comm, lemma_emul_embed, Ext};
use crate::field::{
    canonical, fadd, finv, fmul, fsub, lemma_f_range, lemma_fadd_comm, lemma_fadd_zero, lemma_finv,
    lemma_fmul_assoc, lemma_fmul_comm, lemma_fmul_dist, lemma_fmul_dist_sub, lemma_fmul_one,
    lemma_fmul_zero, P,
};
use crate::numeric::{lemma_pow2_log2, log2};
use crate::polynomial::{domain_element, domain_size, encoding, fpoly};
use crate::roots::lemma_powers_distinct;
use crate::rlc::{rlc, rlc_at};
use crate::sums::{esum, lemma_esum_eq};
use vstd::arithmetic::div_mod::{lemma_add_mod_noop, lemma_small_mod, lemma_sub_mod_noop};
use vstd::prelude::*;

verus! {

/// Coordinate `k` of an extension element.
pub open spec fn coord(e: Ext, k: int) -> int {
    if k == 0 {
        e.c0
    } else if k == 1 {
        e.c1
    } else if k == 2 {
        e.c2
    } else if k == 3 {
        e.c3
    } else {
        e.c4
    }
}

/// Coordinates of sums and multiples.
proof fn lemma_coord_ops(a: Ext, b: Ext, s: int, k: int)
    ensures
        coord(eadd(a, b), k) == fadd(coord(a, k), coord(b, k)),
        coord(escale(s, a), k) == fmul(s, coord(a, k)),
        coord(embed(0), k) == 0,
{
    reveal(eadd);
    reveal(escale);
}

/// Coordinate `k` of every coefficient.
pub open spec fn coord_seq(c: Seq<Ext>, k: int) -> Seq<int> {
    Seq::new(c.len(), |i: int| coord(c[i], k))
}

/// A coordinate of a polynomial's value is the value of the coordinates.
pub proof fn lemma_coord_epoly(c: Seq<Ext>, x: int, k: int)
    ensures
        coord(epoly(c, x), k) == fpoly(coord_seq(c, k), x),
    decreases c.len(),
{
    if c.len() == 0 {
        lemma_coord_ops(embed(0), embed(0), 0, k);
    } else {
        let d = c.drop_first();
        lemma_coord_epoly(d, x, k);
        assert(coord_seq(c, k).drop_first() =~= coord_seq(d, k));
        lemma_coord_ops(c[0], escale(x, epoly(d, x)), 0, k);
        lemma_coord_ops(epoly(d, x), embed(0), x, k);
    }
}

/// A term more in both parts of a difference.
proof fn lemma_fsub_shift(x: int, y: int, z: int)
    ensures
        fsub(fadd(x, z), fadd(y, z)) == fsub(x, y),
{
    reveal(fadd);
    reveal(fsub);
    lemma_sub_mod_noop(x + z, y + z, P as int);
}

/// The difference of sums is the sum of differences.
proof fn lemma_fsub_fadd(a: int, b: int, u: int, v: int)
    ensures
        fsub(fadd(b, u), fadd(a, v)) == fadd(fsub(b, a), fsub(u, v)),
{
    reveal(fadd);
    reveal(fsub);
    lemma_sub_mod_noop(b + u, a + v, P as int);
    lemma_add_mod_noop(b - a, u - v, P as int);
}

/// Values of polynomials are canonical.
proof fn lemma_fpoly_range(c: Seq<int>, x: int)
    ensures
        canonical(fpoly(c, x)),
{
    if c.len() > 0 {
        lemma_f_range(c[0], fmul(x, fpoly(c.drop_first(), x)));
    }
}

/// The multiple of a difference of polynomials.
pub open spec fn scaled_difference(a: Seq<int>, b: Seq<int>, s: int) -> Seq<int> {
    Seq::new(a.len(), |i: int| fmul(s, fsub(b[i], a[i])))
}

/// The value of a multiple of a difference of polynomials.
proof fn lemma_fpoly_difference(a: Seq<int>, b: Seq<int>, s: int, x: int)
    requires
        a.len() == b.len(),
    ensures
        fpoly(scaled_difference(a, b, s), x) == fmul(s, fsub(fpoly(b, x), fpoly(a, x))),
    decreases a.len(),
{
    let c = scaled_difference(a, b, s);
    if a.len() == 0 {
        reveal(fsub);
        lemma_fmul_zero(s);
    } else {
        let (a1, b1) = (a.drop_first(), b.drop_first());
        lemma_fpoly_difference(a1, b1, s, x);
        assert(c.drop_first() =~= scaled_difference(a1, b1, s));
        let (pa, pb) = (fpoly(a1, x), fpoly(b1, x));
        let d = fsub(pb, pa);
        // x (s d) = s (x d), and x d = x pb - x pa.
        lemma_fmul_assoc(x, s, d);
        lemma_fmul_comm(x, s);
        lemma_fmul_assoc(s, x, d);
        lemma_fmul_dist_sub(x, pb, pa);
        lemma_fmul_dist(s, fsub(b[0], a[0]), fmul(x, d));
        lemma_fsub_fadd(a[0], b[0], fmul(x, pb), fmul(x, pa));
    }
}

/// The value is a Reed-Solomon codeword over the base field: the encoding of a message of
/// `d` elements.
pub open spec fn valid_codeword(v: Seq<int>, n: int, d: nat) -> bool {
    exists|message: Seq<int>|
        message.len() == d && (forall|i: int|
            0 <= i < d ==> canonical(#[trigger] message[i])) && v == #[trigger] encoding(
            message,
            n,
        )
}

/// Changing one challenge changes each coordinate of a sum by the change times the
/// codeword's value.
proof fn lemma_sum_changes(
    cws: Seq<Seq<int>>,
    rs: Seq<Ext>,
    t: int,
    r: Ext,
    j: int,
    k: int,
    n: nat,
)
    requires
        0 <= t < n <= cws.len(),
        cws.len() == rs.len(),
        ewf(r),
        forall|i: int| 0 <= i < rs.len() ==> ewf(#[trigger] rs[i]),
        0 <= k < 5,
        canonical(cws[t][j]),
    ensures
        fsub(
            coord(esum(|i: int| emul(rs.update(t, r)[i], embed(cws[i][j])), n), k),
            coord(esum(|i: int| emul(rs[i], embed(cws[i][j])), n), k),
        ) == fmul(cws[t][j], fsub(coord(r, k), coord(rs[t], k))),
    decreases n,
{
    let f = |i: int| emul(rs[i], embed(cws[i][j]));
    let g = |i: int| emul(rs.update(t, r)[i], embed(cws[i][j]));
    let m = (n - 1) as nat;
    let b = cws[t][j];
    let (sf, sg) = (esum(f, m), esum(g, m));
    lemma_coord_ops(sf, f(n - 1), 0, k);
    lemma_coord_ops(sg, g(n - 1), 0, k);
    if t == n - 1 {
        assert forall|i: int| 0 <= i < m implies #[trigger] g(i) == f(i) by {
            assert(rs.update(t, r)[i] == rs[i]);
        }
        lemma_esum_eq(g, f, m);
        assert(f(t) == escale(b, rs[t])) by {
            lemma_emul_comm(rs[t], embed(b));
            lemma_emul_embed(b, rs[t]);
        }
        assert(g(t) == escale(b, r)) by {
            lemma_emul_comm(r, embed(b));
            lemma_emul_embed(b, r);
        }
        lemma_coord_ops(rs[t], r, b, k);
        lemma_coord_ops(r, r, b, k);
        let a = coord(sf, k);
        let (u, v) = (fmul(b, coord(rs[t], k)), fmul(b, coord(r, k)));
        lemma_fadd_comm(a, u);
        lemma_fadd_comm(a, v);
        lemma_fsub_shift(v, u, a);
        lemma_fmul_dist_sub(b, coord(r, k), coord(rs[t], k));
    } else {
        lemma_sum_changes(cws, rs, t, r, j, k, m);
        assert(g(n - 1) == f(n - 1)) by {
            assert(rs.update(t, r)[n - 1] == rs[n - 1]);
        }
        lemma_fsub_shift(coord(sg, k), coord(sf, k), coord(f(n - 1), k));
    }
}

/// Checking the combination checks every codeword: if the combination of codewords with
/// some challenges is a codeword, and is one again with another challenge for one of
/// them, then that one is a codeword. So where a codeword is invalid, at most one
/// challenge for it makes the combination valid.
pub proof fn lemma_rlc_sound(
    cws: Seq<Seq<int>>,
    rs: Seq<Ext>,
    t: int,
    r: Ext,
    n: int,
    d: nat,
)
    requires
        n >= 0,
        0 <= t < cws.len(),
        cws.len() == rs.len(),
        ewf(r),
        forall|i: int| 0 <= i < rs.len() ==> ewf(#[trigger] rs[i]),
        r != rs[t],
        cws[t].len() == n,
        forall|j: int| 0 <= j < n ==> canonical(#[trigger] cws[t][j]),
        in_code(rlc(cws, rs, n as nat), n, d),
        in_code(rlc(cws, rs.update(t, r), n as nat), n, d),
    ensures
        valid_codeword(cws[t], n, d),
{
    let s = rs[t];
    let k: int = if r.c0 != s.c0 {
        0
    } else if r.c1 != s.c1 {
        1
    } else if r.c2 != s.c2 {
        2
    } else if r.c3 != s.c3 {
        3
    } else {
        4
    };
    let delta = fsub(coord(r, k), coord(s, k));
    assert(0 < delta < P) by {
        reveal(fsub);
        let (x, y) = (coord(r, k), coord(s, k));
        assert(x != y);
        if x > y {
            lemma_small_mod((x - y) as nat, P as nat);
        } else {
            vstd::arithmetic::div_mod::lemma_mod_add_multiples_vanish(x - y, P as int);
            lemma_small_mod((x - y + P) as nat, P as nat);
        }
    }
    let v = rlc(cws, rs, n as nat);
    let w = rlc(cws, rs.update(t, r), n as nat);
    let cv = choose|c: Seq<Ext>| c.len() == d && eswf(c) && #[trigger] is_encoding(v, c, n);
    let cw = choose|c: Seq<Ext>| c.len() == d && eswf(c) && #[trigger] is_encoding(w, c, n);
    let (a, b) = (coord_seq(cv, k), coord_seq(cw, k));
    let inv = finv(delta);
    lemma_finv(delta);
    let message = scaled_difference(a, b, inv);
    assert forall|i: int| 0 <= i < d implies canonical(#[trigger] message[i]) by {
        lemma_f_range(inv, fsub(b[i], a[i]));
    }
    assert forall|j: int| 0 <= j < n implies #[trigger] cws[t][j] == encoding(message, n)[j] by {
        let x = domain_element(n, j);
        assert(v[j] == epoly(cv, x) && w[j] == epoly(cw, x));
        lemma_coord_epoly(cv, x, k);
        lemma_coord_epoly(cw, x, k);
        lemma_fpoly_difference(a, b, inv, x);
        lemma_sum_changes(cws, rs, t, r, j, k, cws.len());
        let y = cws[t][j];
        // The value at `x` is `inv (delta y)`.
        lemma_fmul_comm(y, delta);
        lemma_fmul_assoc(inv, delta, y);
        lemma_fmul_one(y);
        assert(rlc_at(cws, rs, j) == v[j]);
        assert(rlc_at(cws, rs.update(t, r), j) == w[j]);
    }
    assert(cws[t] =~= encoding(message, n));
}

/// The quotient of a polynomial by `x - r`.
pub open spec fn quotient(c: Seq<int>, r: int) -> Seq<int>
    decreases c.len(),
{
    if c.len() <= 1 {
        Seq::empty()
    } else {
        seq![fpoly(c.drop_first(), r)] + quotient(c.drop_first(), r)
    }
}

/// A polynomial minus its value at `r` is its quotient times `x - r`.
proof fn lemma_quotient(c: Seq<int>, r: int, x: int)
    ensures
        fsub(fpoly(c, x), fpoly(c, r)) == fmul(fsub(x, r), fpoly(quotient(c, r), x)),
        quotient(c, r).len() == (if c.len() == 0 {
            0
        } else {
            c.len() - 1
        }),
        forall|i: int|
            0 <= i < quotient(c, r).len() ==> canonical(#[trigger] quotient(c, r)[i]),
    decreases c.len(),
{
    if c.len() <= 1 {
        lemma_fmul_zero(fsub(x, r));
        if c.len() == 1 {
            let e = c.drop_first();
            assert(e.len() == 0);
            assert(fpoly(e, x) == 0 && fpoly(e, r) == 0);
            lemma_fmul_zero(x);
            lemma_fmul_zero(r);
        }
        reveal(fsub);
        lemma_small_mod(0, P as nat);
    } else {
        let c1 = c.drop_first();
        let q1 = quotient(c1, r);
        let q = quotient(c, r);
        lemma_quotient(c1, r, x);
        assert(q.drop_first() =~= q1);
        let (px, pr) = (fpoly(c1, x), fpoly(c1, r));
        let d = fsub(x, r);
        // p(x) - p(r) = x px - r pr = x (px - pr) + (x - r) pr.
        lemma_fadd_comm(c[0], fmul(x, px));
        lemma_fadd_comm(c[0], fmul(r, pr));
        lemma_fsub_shift(fmul(x, px), fmul(r, pr), c[0]);
        assert(fsub(fmul(x, px), fmul(r, pr)) == fadd(
            fmul(x, fsub(px, pr)),
            fmul(d, pr),
        )) by {
            lemma_fmul_dist_sub(x, px, pr);
            lemma_fmul_comm(d, pr);
            lemma_fmul_dist_sub(pr, x, r);
            lemma_fmul_comm(pr, x);
            lemma_fmul_comm(pr, r);
            lemma_telescope(fmul(x, px), fmul(x, pr), fmul(r, pr));
        }
        // x (d q1(x)) = d (x q1(x)).
        let y = fpoly(q1, x);
        lemma_fmul_assoc(x, d, y);
        lemma_fmul_comm(x, d);
        lemma_fmul_assoc(d, x, y);
        lemma_fmul_dist(d, pr, fmul(x, y));
        lemma_fadd_comm(fmul(d, fmul(x, y)), fmul(d, pr));
        lemma_fpoly_range(c1, r);
        assert forall|i: int| 0 <= i < q.len() implies canonical(#[trigger] q[i]) by {
            if i > 0 {
                assert(q[i] == q1[i - 1]);
            }
        }
    }
}

/// A difference by way of a third element.
proof fn lemma_telescope(a: int, b: int, c: int)
    ensures
        fsub(a, c) == fadd(fsub(a, b), fsub(b, c)),
{
    reveal(fadd);
    reveal(fsub);
    lemma_add_mod_noop(a - b, b - c, P as int);
}

/// A polynomial whose quotient by `x - r` is zero, and which is zero at `r`, is zero.
proof fn lemma_zero_quotient(c: Seq<int>, r: int)
    requires
        forall|i: int| 0 <= i < c.len() ==> canonical(#[trigger] c[i]),
        fpoly(c, r) == 0,
        forall|i: int| 0 <= i < quotient(c, r).len() ==> (#[trigger] quotient(c, r)[i]) == 0,
    ensures
        forall|i: int| 0 <= i < c.len() ==> (#[trigger] c[i]) == 0,
    decreases c.len(),
{
    if c.len() > 0 {
        let c1 = c.drop_first();
        lemma_quotient(c, r, r);
        if c.len() > 1 {
            let q = quotient(c, r);
            assert(q[0] == fpoly(c1, r));
            assert forall|i: int| 0 <= i < quotient(c1, r).len() implies (
            #[trigger] quotient(c1, r)[i]) == 0 by {
                assert(q[i + 1] == quotient(c1, r)[i]);
            }
            assert forall|i: int| 0 <= i < c1.len() implies canonical(#[trigger] c1[i]) by {
                assert(c1[i] == c[i + 1]);
            }
            lemma_zero_quotient(c1, r);
        }
        assert(fpoly(c1, r) == 0);
        lemma_fmul_zero(r);
        lemma_fadd_zero(c[0]);
        assert forall|i: int| 0 <= i < c.len() implies (#[trigger] c[i]) == 0 by {
            if i > 0 {
                assert(c[i] == c1[i - 1]);
            }
        }
    }
}

/// A polynomial with as many roots as coefficients is zero.
pub proof fn lemma_many_roots(c: Seq<int>, xs: Seq<int>)
    requires
        forall|i: int| 0 <= i < c.len() ==> canonical(#[trigger] c[i]),
        xs.len() >= c.len(),
        forall|i: int| 0 <= i < xs.len() ==> canonical(#[trigger] xs[i]),
        xs.no_duplicates(),
        forall|i: int| 0 <= i < xs.len() ==> fpoly(c, #[trigger] xs[i]) == 0,
    ensures
        forall|i: int| 0 <= i < c.len() ==> (#[trigger] c[i]) == 0,
    decreases c.len(),
{
    if c.len() > 0 {
        let r = xs.last();
        let ys = xs.drop_last();
        let q = quotient(c, r);
        lemma_quotient(c, r, r);
        assert(fpoly(c, r) == 0);
        assert forall|i: int| 0 <= i < ys.len() implies fpoly(q, #[trigger] ys[i]) == 0 by {
            let x = ys[i];
            assert(x == xs[i] && r == xs[xs.len() - 1]);
            lemma_quotient(c, r, x);
            let d = fsub(x, r);
            let y = fpoly(q, x);
            lemma_fpoly_range(q, x);
            assert(0 < d < P) by {
                reveal(fsub);
                if x > r {
                    lemma_small_mod((x - r) as nat, P as nat);
                } else {
                    vstd::arithmetic::div_mod::lemma_mod_add_multiples_vanish(x - r, P as int);
                    lemma_small_mod((x - r + P) as nat, P as nat);
                }
            }
            assert(fmul(d, y) == 0) by {
                reveal(fsub);
                lemma_small_mod(0, P as nat);
            }
            if y != 0 {
                lemma_fmul_nonzero(d, y);
            }
        }
        assert forall|i: int| 0 <= i < ys.len() implies canonical(#[trigger] ys[i]) by {
            assert(ys[i] == xs[i]);
        }
        assert(ys.no_duplicates()) by {
            assert forall|i: int, j: int| 0 <= i < ys.len() && 0 <= j < ys.len() && i != j implies
                ys[i] != ys[j] by {
                assert(ys[i] == xs[i] && ys[j] == xs[j]);
            }
        }
        lemma_many_roots(q, ys);
        lemma_zero_quotient(c, r);
    }
}

/// A codeword can be reconstructed from any of its values that are as many as the message
/// has elements: two messages whose encodings agree there are the same.
pub proof fn lemma_reconstruction_unique(a: Seq<int>, b: Seq<int>, n: int, positions: Seq<int>)
    requires
        domain_size(n),
        a.len() == b.len(),
        forall|i: int| 0 <= i < a.len() ==> canonical(#[trigger] a[i]),
        forall|i: int| 0 <= i < b.len() ==> canonical(#[trigger] b[i]),
        positions.len() >= a.len(),
        positions.no_duplicates(),
        forall|i: int| 0 <= i < positions.len() ==> 0 <= #[trigger] positions[i] < n,
        forall|i: int|
            0 <= i < positions.len() ==> encoding(a, n)[#[trigger] positions[i]] == encoding(
                b,
                n,
            )[positions[i]],
    ensures
        a == b,
{
    let c = scaled_difference(a, b, 1);
    let xs = Seq::new(positions.len(), |i: int| domain_element(n, positions[i]));
    assert forall|i: int| 0 <= i < c.len() implies canonical(#[trigger] c[i]) by {
        lemma_f_range(1, fsub(b[i], a[i]));
    }
    assert forall|i: int| 0 <= i < xs.len() implies canonical(#[trigger] xs[i]) && fpoly(c, xs[i])
        == 0 by {
        let p = positions[i];
        crate::field::lemma_fpow_range(crate::polynomial::domain_generator(n), p as nat);
        lemma_fpoly_difference(a, b, 1, xs[i]);
        assert(encoding(a, n)[p] == fpoly(a, xs[i]) && encoding(b, n)[p] == fpoly(b, xs[i]));
        reveal(fsub);
        lemma_small_mod(0, P as nat);
        lemma_fmul_zero(1);
    }
    lemma_pow2_log2(n);
    assert(xs.no_duplicates()) by {
        assert forall|i: int, j: int| 0 <= i < xs.len() && 0 <= j < xs.len() && i != j implies
            xs[i] != xs[j] by {
            assert(positions[i] != positions[j]);
            let (p, q) = (positions[i], positions[j]);
            if p < q {
                lemma_powers_distinct(log2(n), p as nat, q as nat);
            } else {
                lemma_powers_distinct(log2(n), q as nat, p as nat);
            }
        }
    }
    lemma_many_roots(c, xs);
    assert forall|i: int| 0 <= i < a.len() implies a[i] == b[i] by {
        assert(c[i] == 0);
        let d = fsub(b[i], a[i]);
        lemma_f_range(b[i], a[i]);
        lemma_fmul_one(d);
        assert(a[i] == b[i]) by {
            reveal(fsub);
            let (x, y) = (b[i], a[i]);
            if x > y {
                lemma_small_mod((x - y) as nat, P as nat);
            } else if x < y {
                vstd::arithmetic::div_mod::lemma_mod_add_multiples_vanish(x - y, P as int);
                lemma_small_mod((x - y + P) as nat, P as nat);
            }
        }
    }
    assert(a =~= b);
}

} // verus!
