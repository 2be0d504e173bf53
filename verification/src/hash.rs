//! The two-to-one compression function that commitments are built from, and the leaf
//! hash that chains it.
//!
//! The construction works with any compression function from two digests to one. The
//! functions here take it as an argument and ask only that it accepts every pair of
//! digests and that its result depends on the digests' elements alone.

use crate::ext::fseq;
use crate::field::{canonical, F};
use crate::types::{digest_view, Digest, DIGEST_SIZE};
use vstd::prelude::*;

verus! {

/// Eight canonical field elements.
pub open spec fn is_digest(v: Seq<int>) -> bool {
    &&& v.len() == DIGEST_SIZE
    &&& forall|i: int| 0 <= i < v.len() ==> canonical(#[trigger] v[i])
}

/// `h` can be called on every pair of digests, and equal inputs give equal outputs.
pub open spec fn is_compression<H: Fn(Digest, Digest) -> Digest>(h: H) -> bool {
    &&& forall|l: Digest, r: Digest| #[trigger] call_requires(h, (l, r))
    &&& forall|l: Digest, r: Digest, d: Digest, l2: Digest, r2: Digest, d2: Digest|
        #[trigger] call_ensures(h, (l, r), d) && #[trigger] call_ensures(h, (l2, r2), d2)
            && digest_view(l) == digest_view(l2) && digest_view(r) == digest_view(r2)
            ==> digest_view(d) == digest_view(d2)
}

/// `v` is what `h` gives for the digests with the elements `l` and `r`.
pub open spec fn compresses_to<H: Fn(Digest, Digest) -> Digest>(
    h: H,
    l: Seq<int>,
    r: Seq<int>,
    v: Seq<int>,
) -> bool {
    &&& is_digest(v)
    &&& forall|a: Digest, b: Digest, d: Digest|
        #[trigger] call_ensures(h, (a, b), d) && digest_view(a) == l && digest_view(b) == r
            ==> digest_view(d) == v
}

/// The compression of two digests.
pub open spec fn compress<H: Fn(Digest, Digest) -> Digest>(h: H, l: Seq<int>, r: Seq<int>) -> Seq<
    int,
> {
    choose|v: Seq<int>| compresses_to(h, l, r, v)
}

/// The elements of a digest value.
pub proof fn lemma_digest_view(d: Digest)
    ensures
        is_digest(digest_view(d)),
{
    let v = digest_view(d);
    assert forall|i: int| 0 <= i < v.len() implies canonical(#[trigger] v[i]) by {
        d@[i].lemma_view_range();
    }
}

/// The compression is a digest and is what `h` gives.
pub proof fn lemma_compress<H: Fn(Digest, Digest) -> Digest>(h: H, l: Seq<int>, r: Seq<int>)
    requires
        is_compression(h),
    ensures
        compresses_to(h, l, r, compress(h, l, r)),
{
    if exists|a: Digest, b: Digest, d: Digest|
        #[trigger] call_ensures(h, (a, b), d) && digest_view(a) == l && digest_view(b) == r {
        let (a, b, d) = choose|a: Digest, b: Digest, d: Digest|
            #[trigger] call_ensures(h, (a, b), d) && digest_view(a) == l && digest_view(b) == r;
        lemma_digest_view(d);
        assert(compresses_to(h, l, r, digest_view(d)));
    } else {
        let v = Seq::new(8, |i: int| 0int);
        assert(is_digest(v));
        assert(compresses_to(h, l, r, v));
    }
}

/// Compress two digests.
pub fn compress_pair<H: Fn(Digest, Digest) -> Digest>(h: &H, l: &Digest, r: &Digest) -> (d: Digest)
    requires
        is_compression(*h),
    ensures
        digest_view(d) == compress(*h, digest_view(*l), digest_view(*r)),
{
    let d = h(*l, *r);
    proof {
        lemma_compress(*h, digest_view(*l), digest_view(*r));
    }
    d
}

/// The leaf lengths: whole digests, at least two.
pub open spec fn leaf_len(n: int) -> bool {
    n >= 2 * DIGEST_SIZE && n % DIGEST_SIZE as int == 0
}

/// The left-to-right chain over the digests that `data` is made of: the first one,
/// compressed with the second, compressed with the third, and so on.
pub open spec fn leaf_hash<H: Fn(Digest, Digest) -> Digest>(h: H, data: Seq<int>) -> Seq<int>
    decreases data.len(),
{
    if data.len() <= DIGEST_SIZE {
        data
    } else {
        let k = data.len() - DIGEST_SIZE;
        compress(h, leaf_hash(h, data.take(k)), data.skip(k))
    }
}

/// The digest at `start` of a slice of field elements.
fn chunk(data: &[F], start: usize) -> (d: Digest)
    requires
        start + DIGEST_SIZE <= data@.len(),
    ensures
        digest_view(d) == fseq(data@).subrange(start as int, start + DIGEST_SIZE),
{
    let len: usize = data.len();
    let d: Digest = [
        data[start],
        data[start + 1],
        data[start + 2],
        data[start + 3],
        data[start + 4],
        data[start + 5],
        data[start + 6],
        data[start + 7],
    ];
    assert(digest_view(d) =~= fseq(data@).subrange(start as int, start + DIGEST_SIZE));
    d
}

/// Left-to-right sponge hash of a leaf's evaluations.
pub fn hash_leaf_ltr<H: Fn(Digest, Digest) -> Digest>(h: &H, data: &[F]) -> (d: Digest)
    requires
        is_compression(*h),
        leaf_len(data@.len() as int),
    ensures
        digest_view(d) == leaf_hash(*h, fseq(data@)),
{
    let n: usize = data.len();
    let ghost v = fseq(data@);
    let mut acc = chunk(data, 0);
    let mut pos: usize = 8;
    assert(v.take(8) =~= v.subrange(0, 8));
    while pos < n
        invariant
            is_compression(*h),
            n == data@.len(),
            v == fseq(data@),
            8 <= pos <= n,
            pos % 8 == 0,
            n % 8 == 0,
            digest_view(acc) == leaf_hash(*h, v.take(pos as int)),
        decreases n - pos,
    {
        let next = chunk(data, pos);
        proof {
            let w = v.take(pos + 8);
            assert(w.take(pos as int) =~= v.take(pos as int));
            assert(w.skip(pos as int) =~= v.subrange(pos as int, pos + 8));
        }
        acc = compress_pair(h, &acc, &next);
        pos = pos + 8;
    }
    assert(v.take(n as int) =~= v);
    acc
}

/// The pairs that hashing a leaf compresses, in order.
pub open spec fn leaf_pairs<H: Fn(Digest, Digest) -> Digest>(h: H, data: Seq<int>) -> Seq<
    (Seq<int>, Seq<int>),
>
    decreases data.len(),
{
    if data.len() <= DIGEST_SIZE {
        Seq::empty()
    } else {
        let k = data.len() - DIGEST_SIZE;
        leaf_pairs(h, data.take(k)).push((leaf_hash(h, data.take(k)), data.skip(k)))
    }
}

/// A pair of the first kind and a different pair of the second kind, all of them digests,
/// have the same compression.
pub open spec fn pairs_collide<H: Fn(Digest, Digest) -> Digest>(
    h: H,
    a: Set<(Seq<int>, Seq<int>)>,
    b: Set<(Seq<int>, Seq<int>)>,
) -> bool {
    exists|p: (Seq<int>, Seq<int>), q: (Seq<int>, Seq<int>)|
        #![trigger a.contains(p), b.contains(q)]
        {
            &&& a.contains(p)
            &&& b.contains(q)
            &&& p != q
            &&& is_digest(p.0) && is_digest(p.1) && is_digest(q.0) && is_digest(q.1)
            &&& compress(h, p.0, p.1) == compress(h, q.0, q.1)
        }
}

/// More pairs do not lose a collision.
pub proof fn lemma_collide_widen<H: Fn(Digest, Digest) -> Digest>(
    h: H,
    a: Set<(Seq<int>, Seq<int>)>,
    b: Set<(Seq<int>, Seq<int>)>,
    a2: Set<(Seq<int>, Seq<int>)>,
    b2: Set<(Seq<int>, Seq<int>)>,
)
    requires
        pairs_collide(h, a, b),
        forall|p: (Seq<int>, Seq<int>)| #[trigger] a.contains(p) ==> a2.contains(p),
        forall|p: (Seq<int>, Seq<int>)| #[trigger] b.contains(p) ==> b2.contains(p),
    ensures
        pairs_collide(h, a2, b2),
{
    let (p, q) = choose|p: (Seq<int>, Seq<int>), q: (Seq<int>, Seq<int>)|
        #![trigger a.contains(p), b.contains(q)]
        {
            &&& a.contains(p)
            &&& b.contains(q)
            &&& p != q
            &&& is_digest(p.0) && is_digest(p.1) && is_digest(q.0) && is_digest(q.1)
            &&& compress(h, p.0, p.1) == compress(h, q.0, q.1)
        };
    assert(a2.contains(p) && b2.contains(q));
}

/// All elements are canonical.
pub open spec fn canonical_seq(v: Seq<int>) -> bool {
    forall|i: int| 0 <= i < v.len() ==> canonical(#[trigger] v[i])
}

/// A leaf hash is a digest.
pub proof fn lemma_leaf_hash_digest<H: Fn(Digest, Digest) -> Digest>(h: H, data: Seq<int>)
    requires
        is_compression(h),
        canonical_seq(data),
        data.len() >= DIGEST_SIZE,
    ensures
        is_digest(leaf_hash(h, data)),
{
    if data.len() > DIGEST_SIZE {
        let k = data.len() - DIGEST_SIZE;
        lemma_compress(h, leaf_hash(h, data.take(k)), data.skip(k));
    }
}

/// A leaf's hash binds its values among leaves of one length: if two different leaves of
/// the same length have the same hash, then a pair that hashing the first compresses and a
/// different pair that hashing the second compresses have the same compression.
pub proof fn lemma_leaf_binding<H: Fn(Digest, Digest) -> Digest>(h: H, a: Seq<int>, b: Seq<int>)
    requires
        is_compression(h),
        canonical_seq(a),
        canonical_seq(b),
        a.len() == b.len(),
        a.len() >= DIGEST_SIZE,
        a.len() % 8 == 0,
        a != b,
        leaf_hash(h, a) == leaf_hash(h, b),
    ensures
        pairs_collide(h, leaf_pairs(h, a).to_set(), leaf_pairs(h, b).to_set()),
    decreases a.len(),
{
    if a.len() > DIGEST_SIZE {
        let k = a.len() - DIGEST_SIZE;
        let (a0, b0) = (a.take(k), b.take(k));
        let (a1, b1) = (a.skip(k), b.skip(k));
        lemma_leaf_hash_digest(h, a0);
        lemma_leaf_hash_digest(h, b0);
        assert(is_digest(a1) && is_digest(b1));
        let (x, y) = (leaf_hash(h, a0), leaf_hash(h, b0));
        let (pa, pb) = (leaf_pairs(h, a), leaf_pairs(h, b));
        let (qa, qb) = (leaf_pairs(h, a0), leaf_pairs(h, b0));
        assert(pa.last() == (x, a1) && pb.last() == (y, b1));
        if x == y && a1 == b1 {
            assert(a0 != b0) by {
                if a0 == b0 {
                    assert(a =~= a0 + a1);
                    assert(b =~= b0 + b1);
                }
            }
            lemma_leaf_binding(h, a0, b0);
            assert forall|p: (Seq<int>, Seq<int>)| #[trigger]
                qa.to_set().contains(p) implies pa.to_set().contains(p) by {
                let i = choose|i: int| 0 <= i < qa.len() && qa[i] == p;
                assert(pa[i] == p);
            }
            assert forall|p: (Seq<int>, Seq<int>)| #[trigger]
                qb.to_set().contains(p) implies pb.to_set().contains(p) by {
                let i = choose|i: int| 0 <= i < qb.len() && qb[i] == p;
                assert(pb[i] == p);
            }
            lemma_collide_widen(h, qa.to_set(), qb.to_set(), pa.to_set(), pb.to_set());
        } else {
            assert(pa.to_set().contains((x, a1)));
            assert(pb.to_set().contains((y, b1)));
        }
    }
}

} // verus!
