//! Laws of the field extension, of encodings, and of hashes and trees, that relate their
//! values on different inputs.

use crate::code::lemma_half_domain;
use crate::commitment::{codeword_root, layer_at, leaf_digests, leaf_values, merkle_root, next_layer};
use crate::ext::{eadd, embed, emul, epow, escale, eshift, ewf, Ext};
use crate::field::{
    canonical, fadd, fmul, fpow, fsub, lemma_fadd_assoc, lemma_fadd_comm, lemma_fmul_assoc,
    lemma_fmul_comm, lemma_fmul_dist, lemma_fmul_one, lemma_fmul_zero, lemma_fpow_add,
    lemma_fpow_range, P,
};
use crate::hash::{compress, leaf_hash};
use crate::inputs::{chain, zeros};
use crate::numeric::{lemma_log2_pow2, lemma_pow2_log2, log2};
use crate::polynomial::{domain_element, domain_generator, domain_size, encoding, fpoly};
use crate::roots::lemma_powers_distinct;
use crate::types::Digest;
use vstd::arithmetic::power2::{lemma2_to64, lemma_pow2_pos, lemma_pow2_unfold, pow2};
use vstd::prelude::*;

verus! {

// The extension.

/// The element that generates the extension.
pub open spec fn generator() -> Ext {
    Ext { c0: 0, c1: 1, c2: 0, c3: 0, c4: 0 }
}

/// A product with the generator shifts the coordinates.
proof fn lemma_times_generator(b: Ext)
    requires
        ewf(b),
    ensures
        emul(generator(), b) == eshift(b),
{
    reveal(emul);
    reveal(escale);
    reveal(eadd);
    let b1 = eshift(b);
    let b2 = eshift(b1);
    let b3 = eshift(b2);
    let b4 = eshift(b3);
    crate::ext::lemma_ewf_ops(b, b, 0);
    crate::ext::lemma_ewf_ops(b1, b1, 0);
    crate::ext::lemma_ewf_ops(b2, b2, 0);
    crate::ext::lemma_ewf_ops(b3, b3, 0);
    crate::ext::lemma_escale_unit(b);
    crate::ext::lemma_escale_unit(b1);
    crate::ext::lemma_escale_unit(b2);
    crate::ext::lemma_escale_unit(b3);
    crate::ext::lemma_escale_unit(b4);
    crate::ext::lemma_eadd_zero(embed(0));
    crate::ext::lemma_eadd_zero(b1);
}

/// The generator satisfies the polynomial that the extension is defined by: its fifth power
/// plus its square is one. Its lower powers are the basis.
pub proof fn lemma_generator_polynomial()
    ensures
        eadd(epow(generator(), 5), epow(generator(), 2)) == embed(1),
        epow(generator(), 1) == (Ext { c0: 0, c1: 1, c2: 0, c3: 0, c4: 0 }),
        epow(generator(), 2) == (Ext { c0: 0, c1: 0, c2: 1, c3: 0, c4: 0 }),
        epow(generator(), 3) == (Ext { c0: 0, c1: 0, c2: 0, c3: 1, c4: 0 }),
        epow(generator(), 4) == (Ext { c0: 0, c1: 0, c2: 0, c3: 0, c4: 1 }),
{
    let x = generator();
    reveal(eshift);
    reveal(fsub);
    let e0 = embed(1);
    lemma_times_generator(e0);
    let e1 = eshift(e0);
    assert(e1 == x);
    lemma_times_generator(e1);
    let e2 = eshift(e1);
    assert(e2 == (Ext { c0: 0, c1: 0, c2: 1, c3: 0, c4: 0 }));
    lemma_times_generator(e2);
    let e3 = eshift(e2);
    assert(e3 == (Ext { c0: 0, c1: 0, c2: 0, c3: 1, c4: 0 }));
    lemma_times_generator(e3);
    let e4 = eshift(e3);
    assert(e4 == (Ext { c0: 0, c1: 0, c2: 0, c3: 0, c4: 1 }));
    lemma_times_generator(e4);
    let e5 = eshift(e4);
    assert(epow(x, 0) == e0);
    assert(epow(x, 1) == e1);
    assert(epow(x, 2) == e2);
    assert(epow(x, 3) == e3);
    assert(epow(x, 4) == e4);
    assert(epow(x, 5) == e5);
    assert(fsub(0, 1) == P - 1);
    reveal(eadd);
    reveal(fadd);
}

/// Every element is the sum of its coordinates times the powers of the generator: the sum
/// and the product of two elements are those of polynomials in the generator.
pub proof fn lemma_product_with_coordinates(s: int, a: Ext)
    requires
        ewf(a),
    ensures
        emul(embed(s), a) == escale(s, a),
        emul(generator(), a) == (Ext {
            c0: a.c4,
            c1: a.c0,
            c2: fsub(a.c1, a.c4),
            c3: a.c2,
            c4: a.c3,
        }),
{
    crate::ext::lemma_emul_embed(s, a);
    lemma_times_generator(a);
    reveal(eshift);
}

// Encodings.

/// A change of one coefficient.
proof fn lemma_fpoly_change(c: Seq<int>, k: int, d: int, x: int)
    requires
        0 <= k < c.len(),
        canonical(x),
        canonical(d),
    ensures
        fpoly(c.update(k, fadd(c[k], d)), x) == fadd(fpoly(c, x), fmul(d, fpow(x, k as nat))),
    decreases c.len(),
{
    let e = c.update(k, fadd(c[k], d));
    let t = c.drop_first();
    let p = fpoly(t, x);
    if k == 0 {
        assert(e.drop_first() =~= t);
        lemma_fmul_comm(d, 1);
        lemma_fmul_one(d);
        lemma_fadd_assoc(c[0], d, fmul(x, p));
        lemma_fadd_comm(d, fmul(x, p));
        lemma_fadd_assoc(c[0], fmul(x, p), d);
    } else {
        assert(e.drop_first() =~= t.update(k - 1, fadd(t[k - 1], d)));
        lemma_fpoly_change(t, k - 1, d, x);
        let w = fpow(x, (k - 1) as nat);
        let q = fmul(d, w);
        lemma_fmul_dist(x, p, q);
        lemma_fmul_assoc(x, d, w);
        lemma_fmul_comm(x, d);
        lemma_fmul_assoc(d, x, w);
        lemma_fadd_assoc(c[0], fmul(x, p), fmul(x, q));
    }
}

/// Every element of the message counts with its own power in every position: adding `d` to
/// element `k` adds `d` times the `k`-th power of the position's domain element. The encoding
/// of zeros is zero.
pub proof fn lemma_encoding_weights(message: Seq<int>, n: int, k: int, d: int, j: int)
    requires
        0 <= k < message.len(),
        canonical(d),
        0 <= j < n,
    ensures
        encoding(message.update(k, fadd(message[k], d)), n)[j] == fadd(
            encoding(message, n)[j],
            fmul(d, fpow(domain_element(n, j), k as nat)),
        ),
        encoding(zeros(message.len()), n)[j] == 0,
        encoding(message, n).len() == n,
{
    let x = domain_element(n, j);
    lemma_fpow_range(domain_generator(n), j as nat);
    lemma_fpoly_change(message, k, d, x);
    lemma_fpoly_zeros(message.len(), x);
}

proof fn lemma_fpoly_zeros(n: nat, x: int)
    ensures
        fpoly(zeros(n), x) == 0,
    decreases n,
{
    if n > 0 {
        assert(zeros(n).drop_first() =~= zeros((n - 1) as nat));
        lemma_fpoly_zeros((n - 1) as nat, x);
        lemma_fmul_zero(x);
        crate::field::lemma_fadd_zero(0);
    }
}

/// The domain is the group of the roots of unity of its size: it starts with one, each
/// element is the one before times the second, the power to the size of each is one, and no
/// two are the same.
pub proof fn lemma_domain_is_group(n: int, i: int, j: int)
    requires
        domain_size(n),
        n >= 2,
        0 <= i < j < n,
    ensures
        domain_element(n, 0) == 1,
        domain_element(n, i + 1) == fmul(domain_element(n, i), domain_element(n, 1)),
        fpow(domain_element(n, i), n as nat) == 1,
        domain_element(n, i) != domain_element(n, j),
{
    let g = domain_generator(n);
    lemma_pow2_log2(n);
    lemma_half_domain(n);
    crate::field::lemma_fpow_one(g);
    lemma_fmul_comm(fpow(g, i as nat), g);
    let h = (n / 2) as nat;
    lemma_fpow_add(g, h, h);
    crate::code::lemma_neg_square();
    assert(fpow(g, n as nat) == 1);
    crate::field::lemma_fpow_mul(g, i as nat, n as nat);
    crate::field::lemma_fpow_mul(g, n as nat, i as nat);
    crate::field::lemma_fpow_base_one(i as nat);
    assert(i * n == n * i) by (nonlinear_arith);
    lemma_powers_distinct(log2(n), i as nat, j as nat);
}

// Hashes and trees.

/// A leaf is hashed from left to right: one digest is its own hash, and one digest more is
/// compressed with the hash of those before it.
pub proof fn lemma_leaf_hash_grows<H: Fn(Digest, Digest) -> Digest>(
    h: H,
    data: Seq<int>,
    next: Seq<int>,
)
    requires
        data.len() > 0,
        next.len() == 8,
    ensures
        leaf_hash(h, next) == next,
        leaf_hash(h, data + next) == compress(h, leaf_hash(h, data), next),
{
    let s = data + next;
    assert(s.take(s.len() - 8) =~= data);
    assert(s.skip(s.len() - 8) =~= next);
}

/// The layers over two halves are the layers over each.
proof fn lemma_layers_halves<H: Fn(Digest, Digest) -> Digest>(
    h: H,
    a: Seq<Seq<int>>,
    b: Seq<Seq<int>>,
    k: nat,
    j: nat,
)
    requires
        a.len() == pow2(k),
        b.len() == pow2(k),
        j <= k,
    ensures
        layer_at(h, a, j).len() == pow2((k - j) as nat),
        layer_at(h, b, j).len() == pow2((k - j) as nat),
        layer_at(h, a + b, j) == layer_at(h, a, j) + layer_at(h, b, j),
    decreases j,
{
    if j > 0 {
        let i = (j - 1) as nat;
        lemma_layers_halves(h, a, b, k, i);
        lemma_pow2_unfold((k - i) as nat);
        let (x, y) = (layer_at(h, a, i), layer_at(h, b, i));
        let m = pow2((k - j) as nat) as int;
        assert(x.len() == 2 * m && y.len() == 2 * m);
        assert forall|q: int| 0 <= q < 2 * m implies #[trigger] next_layer(h, x + y)[q] == (
        next_layer(h, x) + next_layer(h, y))[q] by {
            if q < m {
                assert((x + y)[2 * q] == x[2 * q] && (x + y)[2 * q + 1] == x[2 * q + 1]);
            } else {
                let r = q - m;
                assert((x + y)[2 * q] == y[2 * r] && (x + y)[2 * q + 1] == y[2 * r + 1]);
            }
        }
        assert(next_layer(h, x + y) =~= next_layer(h, x) + next_layer(h, y));
    }
}

/// The root of a tree compresses the root of its left half with that of its right half, and
/// the root over one leaf is the leaf.
pub proof fn lemma_root_of_halves<H: Fn(Digest, Digest) -> Digest>(
    h: H,
    left: Seq<Seq<int>>,
    right: Seq<Seq<int>>,
    k: nat,
)
    requires
        left.len() == pow2(k),
        right.len() == pow2(k),
    ensures
        merkle_root(h, left + right) == compress(h, merkle_root(h, left), merkle_root(h, right)),
        k == 0 ==> merkle_root(h, left) == left[0],
{
    lemma_pow2_unfold(k + 1);
    lemma_log2_pow2(k);
    lemma_log2_pow2(k + 1);
    lemma_layers_halves(h, left, right, k, k);
    lemma2_to64();
    let (x, y) = (layer_at(h, left, k), layer_at(h, right, k));
    let t = layer_at(h, left + right, k);
    assert(t == x + y);
    assert(t[0] == x[0] && t[1] == y[0]);
    assert(layer_at(h, left + right, k + 1) == next_layer(h, t));
    assert((left + right).len() == pow2(k + 1));
}

/// A commitment compresses the commitments to the two halves of the codeword, and the
/// commitment to a codeword of one leaf is the leaf's hash.
pub proof fn lemma_commitment_of_halves<H: Fn(Digest, Digest) -> Digest>(
    h: H,
    left: Seq<int>,
    right: Seq<int>,
    epl: int,
    k: nat,
)
    requires
        epl > 0,
        left.len() == pow2(k) * epl,
        right.len() == pow2(k) * epl,
    ensures
        codeword_root(h, left + right, epl) == compress(
            h,
            codeword_root(h, left, epl),
            codeword_root(h, right, epl),
        ),
        k == 0 ==> codeword_root(h, left, epl) == leaf_hash(h, left),
{
    let m = pow2(k) as int;
    let (a, b) = (leaf_digests(h, left, epl), leaf_digests(h, right, epl));
    let s = left + right;
    let c = leaf_digests(h, s, epl);
    vstd::arithmetic::div_mod::lemma_div_multiples_vanish(m, epl);
    assert(epl * m == m * epl) by (nonlinear_arith);
    vstd::arithmetic::div_mod::lemma_div_multiples_vanish(2 * m, epl);
    assert(epl * (2 * m) == m * epl + m * epl) by (nonlinear_arith);
    assert(left.len() as int / epl == m);
    assert(right.len() as int / epl == m);
    assert(s.len() as int / epl == 2 * m);
    assert forall|i: int| 0 <= i < 2 * m implies #[trigger] c[i] == (a + b)[i] by {
        if i < m {
            assert(0 <= i * epl && i * epl + epl <= m * epl) by (nonlinear_arith)
                requires
                    0 <= i < m,
                    epl > 0,
            ;
            assert(leaf_values(s, epl, i) =~= leaf_values(left, epl, i));
        } else {
            let r = i - m;
            assert(0 <= r * epl && r * epl + epl <= m * epl) by (nonlinear_arith)
                requires
                    0 <= r < m,
                    epl > 0,
            ;
            assert(i * epl == m * epl + r * epl) by (nonlinear_arith)
                requires
                    i == m + r,
            ;
            assert(leaf_values(s, epl, i) =~= leaf_values(right, epl, r));
        }
    }
    assert(c =~= a + b);
    lemma_root_of_halves(h, a, b, k);
    if k == 0 {
        lemma2_to64();
        assert(1 * epl == epl && 0 * epl == 0);
        assert(leaf_values(left, epl, 0) =~= left);
    }
}

/// The chain over digests grows by compressing the chain so far with the next digest, and the
/// chain over none is zero.
pub proof fn lemma_chain_grows<H: Fn(Digest, Digest) -> Digest>(
    h: H,
    s: Seq<Seq<int>>,
    next: Seq<int>,
)
    ensures
        chain(h, s.push(next)) == compress(h, chain(h, s), next),
        chain(h, Seq::empty()) == Seq::new(8, |i: int| 0int),
{
    assert(s.push(next).drop_last() =~= s);
    assert(zeros(8) =~= Seq::new(8, |i: int| 0int));
}

/// Chaining compresses different pairs to the same digest in step `i`.
pub open spec fn chains_collide<H: Fn(Digest, Digest) -> Digest>(
    h: H,
    a: Seq<Seq<int>>,
    b: Seq<Seq<int>>,
    i: int,
) -> bool {
    &&& 0 <= i < a.len()
    &&& chain(h, a.take(i)) != chain(h, b.take(i)) || a[i] != b[i]
    &&& compress(h, chain(h, a.take(i)), a[i]) == compress(h, chain(h, b.take(i)), b[i])
}

/// The chain binds its digests: two lists of the same length with the same chain are the
/// same list, or some step compresses different pairs to the same digest.
pub proof fn lemma_chain_binding<H: Fn(Digest, Digest) -> Digest>(
    h: H,
    a: Seq<Seq<int>>,
    b: Seq<Seq<int>>,
)
    requires
        a.len() == b.len(),
        chain(h, a) == chain(h, b),
    ensures
        a == b || exists|i: int| chains_collide(h, a, b, i),
    decreases a.len(),
{
    if a.len() == 0 {
        assert(a =~= b);
    } else {
        let k = a.len() - 1;
        let (c, d) = (a.drop_last(), b.drop_last());
        assert(a.take(k) =~= c && b.take(k) =~= d);
        if a[k] != b[k] || chain(h, c) != chain(h, d) {
            assert(chains_collide(h, a, b, k));
        } else {
            lemma_chain_binding(h, c, d);
            if c != d {
                let i = choose|i: int| chains_collide(h, c, d, i);
                assert(c.take(i) =~= a.take(i) && d.take(i) =~= b.take(i));
                assert(chains_collide(h, a, b, i));
            } else {
                assert(a =~= c.push(a[k]));
                assert(b =~= d.push(b[k]));
            }
        }
    }
}

} // verus!
