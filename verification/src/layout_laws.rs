//! Where the values stand in the private and public inputs of the circuits.

use crate::claims::{flat_claim, lemma_flat_coords_len, parsed_claim, zero_claim, Claim};
use crate::ext::{coords, embed, emul, eseq, ext_of, Ext};
use crate::field::P;
use crate::inputs::{default_claim, hybrid_layout, public_memory, unified_layout, zeros};
use crate::numeric::{lemma_log2_ceil, next_pow2};
use crate::recursion::{part_addresses, recursion_private_input};
use crate::rlc::{cw_views, same_length};
use crate::slices::{flat, lemma_flat_add, lemma_flat_take};
use crate::sums::{esum, lemma_esum_eq};
use crate::types::Batch;
use crate::vm::{claim_len, claim_len_padded, point_n_vars};
use crate::witness::{
    batch_data, batch_regions, column, columns, embedded_rows, spotcheck_input, unified_leaf_input,
};
use vstd::arithmetic::power2::{is_pow2, pow2};
use vstd::prelude::*;

verus! {

/// Element `j` of part `i` of a concatenation of parts of equal length.
pub proof fn lemma_flat_uniform<T>(s: Seq<Seq<T>>, w: int, i: int, j: int)
    requires
        w >= 0,
        forall|k: int| 0 <= k < s.len() ==> (#[trigger] s[k]).len() == w,
    ensures
        flat(s).len() == s.len() * w,
        0 <= i < s.len() && 0 <= j < w ==> 0 <= i * w + j < s.len() * w && flat(s)[i * w + j]
            == s[i][j],
    decreases s.len(),
{
    if s.len() > 0 {
        let t = s.drop_last();
        let n = s.len() as int;
        assert forall|k: int| 0 <= k < t.len() implies (#[trigger] t[k]).len() == w by {
            assert(t[k] == s[k]);
        }
        lemma_flat_uniform(t, w, i, j);
        assert(n * w == (n - 1) * w + w) by (nonlinear_arith);
        assert(0 <= i < n && 0 <= j < w ==> 0 <= i * w + j < n * w) by (nonlinear_arith)
            requires
                w >= 0,
        ;
        if 0 <= i < n && 0 <= j < w {
            if i < n - 1 {
                assert(flat(t)[i * w + j] == t[i][j]);
            } else {
                assert(i * w == (n - 1) * w);
            }
        }
    } else {
        assert(s.len() * w == 0) by (nonlinear_arith)
            requires
                s.len() == 0,
        ;
    }
}

/// A batch as a circuit takes it: a commitment and a challenge for each codeword, and
/// codewords of one length.
pub open spec fn is_uniform(batch: Batch, b: int, n: int) -> bool {
    &&& b > 0
    &&& batch.codewords@.len() == b
    &&& batch.commitments@.len() == b
    &&& batch.challenges@.len() == b
    &&& same_length(batch.codewords@, n)
}

/// The sizes of the three regions.
proof fn lemma_region_sizes(batch: Batch, b: int, n: int)
    requires
        is_uniform(batch, b, n),
    ensures
        flat(crate::inputs::roots(batch.commitments@)).len() == 8 * b,
        flat(cw_views(batch.codewords@)).len() == b * n,
        columns(cw_views(batch.codewords@), 0, n).len() == n * b,
        columns(cw_views(batch.codewords@), 1, n).len() == n * (b - 1),
        cw_views(batch.codewords@)[0].len() == n,
{
    let cws = cw_views(batch.codewords@);
    lemma_flat_uniform(crate::inputs::roots(batch.commitments@), 8, 0, 0);
    assert forall|k: int| 0 <= k < cws.len() implies (#[trigger] cws[k]).len() == n by {
        assert(batch.codewords@[k]@.len() == n);
    }
    assert(cws[0].len() == n);
    lemma_flat_uniform(cws, n, 0, 0);
    lemma_flat_uniform(Seq::new(n as nat, |j: int| column(cws, 0, j)), b, 0, 0);
    lemma_flat_uniform(Seq::new(n as nat, |j: int| column(cws, 1, j)), b - 1, 0, 0);
}

/// What the batch circuit reads is laid out at fixed addresses. For `b` codewords of length
/// `n` there are `8 b + 2 b n` elements: at `8 i` the root of codeword `i`, at
/// `8 b + i n + j` and again at `8 b + b n + j b + i` codeword `i` at position `j`.
pub proof fn lemma_batch_regions_layout(batch: Batch, b: int, n: int, i: int, j: int, k: int)
    requires
        is_uniform(batch, b, n),
        0 <= i < b,
        0 <= j < n,
        0 <= k < 8,
    ensures
        ({
            let x = batch_regions(batch);
            &&& x.len() == 8 * b + b * n + n * b
            &&& x[8 * i + k] == batch.commitments@[i].root@[k]@
            &&& x[8 * b + (i * n + j)] == batch.codewords@[i].evals@[j]@
            &&& x[8 * b + b * n + (j * b + i)] == batch.codewords@[i].evals@[j]@
        }),
{
    let cws = cw_views(batch.codewords@);
    let rts = crate::inputs::roots(batch.commitments@);
    lemma_region_sizes(batch, b, n);
    assert forall|q: int| 0 <= q < cws.len() implies (#[trigger] cws[q]).len() == n by {
        assert(batch.codewords@[q]@.len() == n);
    }
    let cols = Seq::new(n as nat, |q: int| column(cws, 0, q));
    lemma_flat_uniform(rts, 8, i, k);
    lemma_flat_uniform(cws, n, i, j);
    lemma_flat_uniform(cols, b, j, i);
    assert(rts[i][k] == batch.commitments@[i].root@[k]@);
    assert(cws[i][j] == batch.codewords@[i].evals@[j]@);
    assert(cols[j][i] == cws[i][j]);
}

/// What the spot-check circuit reads is laid out at fixed addresses. For `b` codewords of
/// length `n` there are `8 b + 2 b n + 5 n` elements: the roots, rows and columns as for the
/// batch circuit, and at `8 b + 2 b n + 5 j` the coordinates of the combination at position
/// `j`, the sum over `i` of challenge `i` times the element at `8 b + b n + j b + i`.
pub proof fn lemma_spotcheck_layout(batch: Batch, b: int, n: int, i: int, j: int, k: int)
    requires
        is_uniform(batch, b, n),
        0 <= i < b,
        0 <= j < n,
        0 <= k < 8,
    ensures
        ({
            let x = spotcheck_input(batch);
            let at = 8 * b + b * n + n * b + 5 * j;
            &&& x.len() == 8 * b + b * n + n * b + 5 * n
            &&& x[8 * i + k] == batch.commitments@[i].root@[k]@
            &&& x[8 * b + (i * n + j)] == batch.codewords@[i].evals@[j]@
            &&& x[8 * b + b * n + (j * b + i)] == batch.codewords@[i].evals@[j]@
            &&& ext_of(x.subrange(at, at + 5)) == esum(
                |t: int|
                    emul(batch.challenges@[t]@, embed(x[8 * b + b * n + (j * b + t)])),
                b as nat,
            )
        }),
{
    let x = spotcheck_input(batch);
    let cws = cw_views(batch.codewords@);
    let rs = eseq(batch.challenges@);
    let front = batch_regions(batch);
    lemma_region_sizes(batch, b, n);
    lemma_batch_regions_layout(batch, b, n, i, j, k);
    assert forall|q: int| 0 <= q < cws.len() implies (#[trigger] cws[q]).len() == n by {
        assert(batch.codewords@[q]@.len() == n);
    }
    assert(0 <= i * n + j < b * n) by (nonlinear_arith)
        requires
            0 <= i < b,
            0 <= j < n,
    ;
    assert(0 <= j * b + i < n * b) by (nonlinear_arith)
        requires
            0 <= i < b,
            0 <= j < n,
    ;
    let hint = crate::rlc::rlc(cws, rs, n as nat);
    let parts = Seq::new(hint.len(), |q: int| coords(hint[q]));
    lemma_flat_uniform(parts, 5, j, 0);
    lemma_flat_uniform(parts, 5, j, 1);
    lemma_flat_uniform(parts, 5, j, 2);
    lemma_flat_uniform(parts, 5, j, 3);
    lemma_flat_uniform(parts, 5, j, 4);
    let at = 8 * b + b * n + n * b + 5 * j;
    let e = hint[j];
    assert(ext_of(x.subrange(at, at + 5)) == e) by {
        let s = x.subrange(at, at + 5);
        assert(s[0] == parts[j][0] && s[1] == parts[j][1] && s[2] == parts[j][2]);
        assert(s[3] == parts[j][3] && s[4] == parts[j][4]);
    }
    let f = |t: int| emul(rs[t], embed(cws[t][j]));
    let g = |t: int| emul(batch.challenges@[t]@, embed(x[8 * b + b * n + (j * b + t)]));
    assert forall|t: int| 0 <= t < b implies #[trigger] f(t) == g(t) by {
        lemma_batch_regions_layout(batch, b, n, t, j, k);
        assert(0 <= j * b + t < n * b) by (nonlinear_arith)
            requires
                0 <= t < b,
                0 <= j < n,
        ;
    }
    lemma_esum_eq(f, g, b as nat);
}

/// The data block of a batch is laid out at fixed addresses. For `b` codewords of length `n`
/// there are `8 b + b n + 5 n + (b - 1) n` elements: at `8 i` the root of codeword `i`, at
/// `8 b + i n + j` codeword `i` at position `j`, at `8 b + b n + 5 j` the first codeword at
/// position `j` followed by four zeros, and at `8 b + b n + 5 n + j (b - 1) + i - 1` any
/// other codeword `i` at position `j`.
pub proof fn lemma_batch_data_layout(batch: Batch, b: int, n: int, i: int, j: int, k: int)
    requires
        is_uniform(batch, b, n),
        0 <= i < b,
        0 <= j < n,
        0 <= k < 8,
    ensures
        ({
            let x = batch_data(batch);
            let ef = 8 * b + b * n;
            &&& x.len() == 8 * b + b * n + 5 * n + n * (b - 1)
            &&& x[8 * i + k] == batch.commitments@[i].root@[k]@
            &&& x[8 * b + (i * n + j)] == batch.codewords@[i].evals@[j]@
            &&& x[ef + 5 * j] == batch.codewords@[0].evals@[j]@
            &&& x[ef + 5 * j + 1] == 0
            &&& x[ef + 5 * j + 2] == 0
            &&& x[ef + 5 * j + 3] == 0
            &&& x[ef + 5 * j + 4] == 0
            &&& i > 0 ==> x[ef + 5 * n + (j * (b - 1) + (i - 1))]
                == batch.codewords@[i].evals@[j]@
        }),
{
    let x = batch_data(batch);
    let cws = cw_views(batch.codewords@);
    let rts = crate::inputs::roots(batch.commitments@);
    lemma_region_sizes(batch, b, n);
    assert forall|q: int| 0 <= q < cws.len() implies (#[trigger] cws[q]).len() == n by {
        assert(batch.codewords@[q]@.len() == n);
    }
    let cols = Seq::new(n as nat, |q: int| column(cws, 1, q));
    lemma_flat_uniform(rts, 8, i, k);
    lemma_flat_uniform(cws, n, i, j);
    lemma_flat_uniform(cols, b - 1, j, i - 1);
    let ef = 8 * b + b * n;
    let e = embedded_rows(cws[0]);
    assert(e.len() == 5 * n);
    assert((5 * j) % 5 == 0 && (5 * j) / 5 == j);
    assert((5 * j + 1) % 5 == 1 && (5 * j + 2) % 5 == 2);
    assert((5 * j + 3) % 5 == 3 && (5 * j + 4) % 5 == 4);
    assert(x[ef + 5 * j + 0] == e[5 * j + 0]);
    assert(x[ef + 5 * j + 1] == e[5 * j + 1]);
    assert(x[ef + 5 * j + 2] == e[5 * j + 2]);
    assert(x[ef + 5 * j + 3] == e[5 * j + 3]);
    assert(x[ef + 5 * j + 4] == e[5 * j + 4]);
    if i > 0 {
        assert(cols[j][i - 1] == cws[i][j]);
    }
}

/// The unified circuit on one raw batch finds its data behind the address it is given: it
/// takes no proofs and one batch, and what stands at the address of the batch, in a memory
/// whose public part has the given length, is the data block; the next address is the end.
pub proof fn lemma_unified_leaf_addresses(batch: Batch, public_memory_len: int, a: int)
    requires
        public_memory_len >= 0,
        public_memory_len + 4 + batch_data(batch).len() < P,
        0 <= a < batch_data(batch).len(),
    ensures
        ({
            let x = unified_leaf_input(batch, public_memory_len);
            &&& x[0] == 0
            &&& x[1] == 1
            &&& x[x[2] - public_memory_len + a] == batch_data(batch)[a]
            &&& x[3] - public_memory_len == x.len()
            &&& x[3] - x[2] == batch_data(batch).len()
        }),
{
    let d = batch_data(batch);
    let ptr = public_memory_len + 4;
    vstd::arithmetic::div_mod::lemma_small_mod(ptr as nat, P as nat);
    vstd::arithmetic::div_mod::lemma_small_mod((ptr + d.len()) as nat, P as nat);
}

/// A recursive circuit finds each part of its private input behind the address that it is
/// given: the counts of proofs come first, then an address for each part, and what stands
/// at the address of a part, in a memory whose public part ends at `base`, is the part.
pub proof fn lemma_part_addresses(
    n_first: int,
    n_second: int,
    parts: Seq<Seq<int>>,
    base: int,
    i: int,
    a: int,
)
    requires
        0 <= n_first < P,
        0 <= n_second < P,
        base >= 0,
        base + 2 + parts.len() + flat(parts).len() < P,
        0 <= i < parts.len(),
        0 <= a < parts[i].len(),
    ensures
        ({
            let x = recursion_private_input(n_first, n_second, parts, base);
            &&& x[0] == n_first
            &&& x[1] == n_second
            &&& x.len() == 2 + parts.len() + flat(parts).len()
            &&& 0 <= x[2 + i] - base + a < x.len()
            &&& x[x[2 + i] - base + a] == parts[i][a]
        }),
{
    let x = recursion_private_input(n_first, n_second, parts, base);
    vstd::arithmetic::div_mod::lemma_small_mod(n_first as nat, P as nat);
    vstd::arithmetic::div_mod::lemma_small_mod(n_second as nat, P as nat);
    let before = flat(parts.take(i));
    lemma_flat_take(parts, i);
    lemma_flat_add(parts.take(i + 1), parts.skip(i + 1));
    assert(parts.take(i + 1) + parts.skip(i + 1) =~= parts);
    assert(flat(parts)[before.len() + a] == parts[i][a]);
    let addr = base + 2 + parts.len() + before.len();
    vstd::arithmetic::div_mod::lemma_small_mod(addr as nat, P as nat);
    assert(x[2 + i] == part_addresses(parts, base)[i]);
}

// Public inputs.

/// Reading a claim gives back what flattening wrote: a claim that stands at an offset in a
/// sequence is the point and the value.
pub proof fn lemma_claim_reads_back(
    front: Seq<int>,
    point: Seq<Ext>,
    value: Ext,
    back: Seq<int>,
)
    ensures
        parsed_claim(
            front + flat_claim(point, value) + back,
            front.len() as int,
            point.len() as int,
        ) == (Claim { point, value }),
        flat_claim(point, value).len() == claim_len(point.len() as int),
{
    let x = front + flat_claim(point, value) + back;
    let at = front.len() as int;
    let n = point.len() as int;
    let c = parsed_claim(x, at, n);
    let parts = Seq::new(point.len(), |q: int| coords(point[q]));
    lemma_flat_coords_len(point);
    assert forall|i: int| 0 <= i < n implies #[trigger] c.point[i] == point[i] by {
        lemma_flat_uniform(parts, 5, i, 0);
        lemma_flat_uniform(parts, 5, i, 1);
        lemma_flat_uniform(parts, 5, i, 2);
        lemma_flat_uniform(parts, 5, i, 3);
        lemma_flat_uniform(parts, 5, i, 4);
        let s = x.skip(at + 5 * i);
        assert(s[0] == parts[i][0] && s[1] == parts[i][1] && s[2] == parts[i][2]);
        assert(s[3] == parts[i][3] && s[4] == parts[i][4]);
    }
    assert(c.point =~= point);
    let s = x.skip(at + 5 * n);
    let v = coords(value);
    assert(s[0] == v[0] && s[1] == v[1] && s[2] == v[2] && s[3] == v[3] && s[4] == v[4]);
}

/// The claim on the zero point is the flattened zero claim.
pub proof fn lemma_default_is_zero_claim(n_vars: int, zero_eval: int)
    requires
        n_vars >= 0,
    ensures
        default_claim(n_vars, zero_eval) == flat_claim(
            zero_claim(n_vars, zero_eval).point,
            embed(zero_eval),
        ),
        forall|i: int|
            0 <= i < n_vars ==> #[trigger] zero_claim(n_vars, zero_eval).point[i] == embed(0),
        zero_claim(n_vars, zero_eval).point.len() == n_vars,
        zero_claim(n_vars, zero_eval).value == embed(zero_eval),
{
    let point = zero_claim(n_vars, zero_eval).point;
    let parts = Seq::new(point.len(), |q: int| coords(point[q]));
    let d = default_claim(n_vars, zero_eval);
    let f = flat_claim(point, embed(zero_eval));
    lemma_flat_coords_len(point);
    assert forall|a: int| 0 <= a < d.len() implies d[a] == f[a] by {
        if a < 5 * n_vars {
            let (i, k) = (a / 5, a % 5);
            lemma_flat_uniform(parts, 5, i, k);
            assert(parts[i][k] == 0);
        }
    }
    assert(d =~= f);
}

/// The public input of the unified circuit: the aggregated hash first, then the claim, then
/// zeros up to a whole number of digests, and the digest of the program at the end.
pub proof fn lemma_unified_layout(agg: Seq<int>, point: Seq<Ext>, value: Ext, hash: Seq<int>)
    requires
        agg.len() == 8,
        hash.len() == 8,
    ensures
        ({
            let n = point.len() as int;
            let x = unified_layout(agg, flat_claim(point, value), n, hash);
            &&& x.len() % 8 == 0
            &&& 16 + claim_len(n) <= x.len() < 24 + claim_len(n)
            &&& x.take(8) == agg
            &&& parsed_claim(x, 8, n) == (Claim { point, value })
            &&& forall|a: int| 8 + claim_len(n) <= a < x.len() - 8 ==> #[trigger] x[a] == 0
            &&& x.skip(x.len() - 8) == hash
        }),
{
    let n = point.len() as int;
    let claim = flat_claim(point, value);
    let x = unified_layout(agg, claim, n, hash);
    let back = zeros((claim_len_padded(n) - claim_len(n)) as nat) + hash;
    lemma_padded_len(n);
    lemma_claim_reads_back(agg, point, value, back);
    assert(x =~= agg + claim + back);
    assert(x.take(8) =~= agg);
    assert(x.skip(x.len() - 8) =~= hash);
}

/// Padding goes up to the next whole digest.
proof fn lemma_padded_len(n_vars: int)
    requires
        n_vars >= 0,
    ensures
        claim_len_padded(n_vars) % 8 == 0,
        claim_len(n_vars) <= claim_len_padded(n_vars) < claim_len(n_vars) + 8,
        claim_len(n_vars) > 0,
{
    let c = claim_len(n_vars);
    vstd::arithmetic::div_mod::lemma_fundamental_div_mod(c + 7, 8);
}

/// The public input of the hybrid circuit: the aggregated hash first, then the claim on the
/// inner program and the claim on the circuit itself, each followed by zeros up to a whole
/// number of digests, and the digests of the inner program and of the circuit at the end.
pub proof fn lemma_hybrid_layout(
    agg: Seq<int>,
    inner_point: Seq<Ext>,
    inner_value: Ext,
    self_point: Seq<Ext>,
    self_value: Ext,
    inner_hash: Seq<int>,
    self_hash: Seq<int>,
)
    requires
        agg.len() == 8,
        inner_hash.len() == 8,
        self_hash.len() == 8,
    ensures
        ({
            let (n, m) = (inner_point.len() as int, self_point.len() as int);
            let x = hybrid_layout(
                agg,
                flat_claim(inner_point, inner_value),
                n,
                flat_claim(self_point, self_value),
                m,
                inner_hash,
                self_hash,
            );
            let second = 8 + claim_len_padded(n);
            &&& second % 8 == 0
            &&& 8 + claim_len(n) <= second < 16 + claim_len(n)
            &&& x.len() % 8 == 0
            &&& second + claim_len(m) + 16 <= x.len() < second + claim_len(m) + 24
            &&& x.take(8) == agg
            &&& parsed_claim(x, 8, n) == (Claim { point: inner_point, value: inner_value })
            &&& parsed_claim(x, second, m) == (Claim { point: self_point, value: self_value })
            &&& forall|a: int| 8 + claim_len(n) <= a < second ==> #[trigger] x[a] == 0
            &&& forall|a: int|
                second + claim_len(m) <= a < x.len() - 16 ==> #[trigger] x[a] == 0
            &&& x.subrange(x.len() - 16, x.len() - 8) == inner_hash
            &&& x.skip(x.len() - 8) == self_hash
        }),
{
    let (n, m) = (inner_point.len() as int, self_point.len() as int);
    let a = flat_claim(inner_point, inner_value);
    let b = flat_claim(self_point, self_value);
    let x = hybrid_layout(agg, a, n, b, m, inner_hash, self_hash);
    let (za, zb) = (
        zeros((claim_len_padded(n) - claim_len(n)) as nat),
        zeros((claim_len_padded(m) - claim_len(m)) as nat),
    );
    lemma_padded_len(n);
    lemma_padded_len(m);
    lemma_claim_reads_back(agg, inner_point, inner_value, za + b + (zb + inner_hash + self_hash));
    lemma_claim_reads_back(agg + (a + za), self_point, self_value, zb + inner_hash + self_hash);
    lemma_seven_parts(agg, a, za, b, zb, inner_hash, self_hash);
}

/// Seven sequences one after the other.
proof fn lemma_seven_parts(
    agg: Seq<int>,
    a: Seq<int>,
    za: Seq<int>,
    b: Seq<int>,
    zb: Seq<int>,
    u: Seq<int>,
    w: Seq<int>,
)
    requires
        agg.len() == 8,
        u.len() == 8,
        w.len() == 8,
    ensures
        ({
            let x = agg + (a + za) + (b + zb) + u + w;
            let (start, second) = (8 + a.len(), 8 + a.len() + za.len());
            &&& x.len() == second + b.len() + zb.len() + 16
            &&& x == agg + a + (za + b + (zb + u + w))
            &&& x == agg + (a + za) + b + (zb + u + w)
            &&& x.take(8) == agg
            &&& x.subrange(x.len() - 16, x.len() - 8) == u
            &&& x.skip(x.len() - 8) == w
            &&& forall|i: int| start <= i < second ==> #[trigger] x[i] == za[i - start]
            &&& forall|i: int|
                second + b.len() <= i < x.len() - 16 ==> #[trigger] x[i] == zb[i - second
                    - b.len()]
        }),
{
    let x = agg + (a + za) + (b + zb) + u + w;
    assert(x =~= agg + a + (za + b + (zb + u + w)));
    assert(x =~= agg + (a + za) + b + (zb + u + w));
    assert(x.take(8) =~= agg);
    assert(x.subrange(x.len() - 16, x.len() - 8) =~= u);
    assert(x.skip(x.len() - 8) =~= w);
}

/// The public memory holds the public input at its address, and zeros elsewhere; its size
/// is the least power of two that has room for it.
pub proof fn lemma_public_memory(input_start: int, input: Seq<int>, k: nat)
    requires
        input_start >= 0,
    ensures
        ({
            let m = public_memory(input_start, input);
            let end = input_start + input.len();
            &&& m.subrange(input_start, end) == input
            &&& forall|a: int| 0 <= a < input_start ==> #[trigger] m[a] == 0
            &&& forall|a: int| end <= a < m.len() ==> #[trigger] m[a] == 0
            &&& is_pow2(m.len() as int)
            &&& end <= m.len()
            &&& end <= pow2(k) ==> m.len() <= pow2(k)
        }),
{
    let m = public_memory(input_start, input);
    let end = input_start + input.len();
    lemma_log2_ceil(end);
    let e = crate::numeric::log2_ceil(end);
    assert(m.len() == next_pow2(end));
    assert(m.subrange(input_start, end) =~= input);
    crate::numeric::lemma_log2_pow2(e);
    if end <= pow2(k) {
        crate::numeric::lemma_pow2_le(e, k);
    }
}

/// The number of variables of a program's encoding is the least for which there is a point for
/// every instruction column of every instruction.
pub proof fn lemma_point_has_room(log_size: nat, columns: int, k: nat)
    requires
        columns >= 0,
    ensures
        ({
            let n = point_n_vars(log_size as int, columns);
            &&& n >= log_size
            &&& pow2(log_size) * columns <= pow2(n as nat)
            &&& columns <= pow2(k) ==> n <= log_size + k
        }),
{
    let e = crate::numeric::log2_ceil(columns);
    lemma_log2_ceil(columns);
    vstd::arithmetic::power2::lemma_pow2_adds(log_size, e);
    vstd::arithmetic::power2::lemma_pow2_pos(log_size);
    assert(pow2(log_size) * columns <= pow2(log_size) * pow2(e)) by (nonlinear_arith)
        requires
            columns <= pow2(e),
            pow2(log_size) > 0,
    ;
}

} // verus!
