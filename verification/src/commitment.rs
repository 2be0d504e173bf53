//! Merkle commitments to codewords.
//!
//! Each leaf packs a number of consecutive evaluations, hashed left to right into a
//! digest. The leaves form a binary tree whose root is the commitment.

use crate::ext::fseq;
use crate::field::F;
use crate::hash::{
    canonical_seq, compress, compress_pair, hash_leaf_ltr, is_compression, is_digest, leaf_hash,
    leaf_len, leaf_pairs, lemma_collide_widen, lemma_compress, lemma_digest_view,
    lemma_leaf_binding, lemma_leaf_hash_digest, pairs_collide,
};
use crate::numeric::{ilog2, lemma_log2_half, lemma_log2_one, lemma_pow2_log2, log2};
use crate::slices::copy_range;
use crate::types::{
    digest_eq, digest_view, Codeword, Commitment, Digest, Opening, EVALS_PER_LEAF,
    MIN_EVALS_PER_LEAF,
};
use vstd::arithmetic::power2::is_pow2;
use vstd::prelude::*;

verus! {

/// The elements of a sequence of digests.
pub open spec fn digests(s: Seq<Digest>) -> Seq<Seq<int>> {
    Seq::new(s.len(), |i: int| digest_view(s[i]))
}

/// The layer above: each node compresses two neighbours.
pub open spec fn next_layer<H: Fn(Digest, Digest) -> Digest>(h: H, layer: Seq<Seq<int>>) -> Seq<
    Seq<int>,
> {
    Seq::new(layer.len() / 2, |i: int| compress(h, layer[2 * i], layer[2 * i + 1]))
}

/// The layer `k` levels above the leaves.
pub open spec fn layer_at<H: Fn(Digest, Digest) -> Digest>(
    h: H,
    leaves: Seq<Seq<int>>,
    k: nat,
) -> Seq<Seq<int>>
    decreases k,
{
    if k == 0 {
        leaves
    } else {
        next_layer(h, layer_at(h, leaves, (k - 1) as nat))
    }
}

/// The root of the tree over the given leaves.
pub open spec fn merkle_root<H: Fn(Digest, Digest) -> Digest>(h: H, leaves: Seq<Seq<int>>) -> Seq<
    int,
> {
    layer_at(h, leaves, log2(leaves.len() as int))[0]
}

/// The node that a path of siblings leads to from `node` at position `index`.
pub open spec fn path_root<H: Fn(Digest, Digest) -> Digest>(
    h: H,
    node: Seq<int>,
    index: int,
    siblings: Seq<Seq<int>>,
) -> Seq<int>
    decreases siblings.len(),
{
    if siblings.len() == 0 {
        node
    } else {
        let up = if index % 2 == 0 {
            compress(h, node, siblings[0])
        } else {
            compress(h, siblings[0], node)
        };
        path_root(h, up, index / 2, siblings.drop_first())
    }
}

/// The neighbour of a position.
pub open spec fn sibling(index: int) -> int {
    if index % 2 == 0 {
        index + 1
    } else {
        index - 1
    }
}

/// The ancestor `k` levels up of a position.
pub open spec fn ancestor_at(index: int, k: nat) -> int
    decreases k,
{
    if k == 0 {
        index
    } else {
        ancestor_at(index, (k - 1) as nat) / 2
    }
}

/// The evaluations of leaf `i`.
pub open spec fn leaf_values(evals: Seq<int>, epl: int, i: int) -> Seq<int> {
    evals.subrange(i * epl, i * epl + epl)
}

/// The leaf digests of a codeword.
pub open spec fn leaf_digests<H: Fn(Digest, Digest) -> Digest>(
    h: H,
    evals: Seq<int>,
    epl: int,
) -> Seq<Seq<int>> {
    Seq::new(
        (evals.len() as int / epl) as nat,
        |i: int| leaf_hash(h, leaf_values(evals, epl, i)),
    )
}

/// The commitment to a codeword with `epl` evaluations per leaf.
pub open spec fn codeword_root<H: Fn(Digest, Digest) -> Digest>(
    h: H,
    evals: Seq<int>,
    epl: int,
) -> Seq<int> {
    merkle_root(h, leaf_digests(h, evals, epl))
}

/// The codeword lengths and leaf sizes for which there is a commitment.
pub open spec fn commit_params(n: int, epl: int) -> bool {
    &&& is_pow2(n)
    &&& epl >= MIN_EVALS_PER_LEAF
    &&& epl % 8 == 0
    &&& n % epl == 0
}

/// The opening holds a leaf of `epl` values and a path that leads to the committed root.
pub open spec fn opens<H: Fn(Digest, Digest) -> Digest>(
    h: H,
    root: Seq<int>,
    opening: Opening,
    epl: int,
    height: nat,
) -> bool {
    &&& opening.values@.len() == epl
    &&& opening.siblings@.len() == height
    &&& path_root(
        h,
        leaf_hash(h, fseq(opening.values@)),
        opening.leaf_index as int,
        digests(opening.siblings@),
    ) == root
}

/// The leaf and the path of an opening have the lengths of those of a leaf of `epl` values.
pub open spec fn fits_leaf(opening: Opening, epl: int, height: nat) -> bool {
    opening.values@.len() == epl && opening.siblings@.len() == height
}

/// A divisor of a power of two is a power of two, and so is the quotient.
pub proof fn lemma_pow2_divisor(n: int, e: int, q: int)
    requires
        is_pow2(n),
        e >= 1,
        n == e * q,
    ensures
        is_pow2(e),
        is_pow2(q),
    decreases n,
{
    reveal(is_pow2);
    assert(q >= 1) by (nonlinear_arith)
        requires
            n == e * q,
            n >= 1,
            e >= 1,
    ;
    if n == 1 {
        assert(e <= 1 && q <= 1) by (nonlinear_arith)
            requires
                e * q == 1,
                e >= 1,
                q >= 1,
        ;
    } else if e % 2 == 0 {
        let f = e / 2;
        assert(n / 2 == f * q) by (nonlinear_arith)
            requires
                n == e * q,
                e == 2 * f,
        ;
        lemma_pow2_divisor(n / 2, f, q);
    } else {
        if q % 2 == 1 {
            let (a, b) = (e / 2, q / 2);
            assert(n == 2 * (2 * (a * b) + a + b) + 1) by (nonlinear_arith)
                requires
                    n == e * q,
                    e == 2 * a + 1,
                    q == 2 * b + 1,
            ;
        }
        let r = q / 2;
        assert(n / 2 == e * r) by (nonlinear_arith)
            requires
                n == e * q,
                q == 2 * r,
        ;
        lemma_pow2_divisor(n / 2, e, r);
    }
}

/// The number of leaves is a power of two.
pub proof fn lemma_commit_params(n: int, epl: int)
    requires
        commit_params(n, epl),
    ensures
        n > 0,
        n == epl * (n / epl),
        n / epl >= 1,
        is_pow2(n / epl),
        leaf_len(epl),
{
    lemma_pow2_log2(n);
    vstd::arithmetic::div_mod::lemma_fundamental_div_mod(n, epl);
    lemma_pow2_divisor(n, epl, n / epl);
    lemma_pow2_log2(n / epl);
}

/// Leaf `i` lies within the codeword.
pub proof fn lemma_leaf_bound(n: int, epl: int, i: int)
    requires
        n == epl * (n / epl),
        0 <= i < n / epl,
        epl > 0,
    ensures
        0 <= i * epl,
        i * epl + epl <= n,
{
    assert(0 <= i * epl) by (nonlinear_arith)
        requires
            0 <= i,
            epl > 0,
    ;
    let q = n / epl;
    assert(i * epl + epl <= epl * q) by (nonlinear_arith)
        requires
            i + 1 <= q,
            epl > 0,
    ;
}

/// A binary hash tree: the leaf digests, then each layer above, up to the root.
#[derive(Debug)]
pub struct MerkleTree {
    pub layers: Vec<Vec<[F; 8]>>,
}

impl View for MerkleTree {
    type V = Seq<Seq<Seq<int>>>;

    open spec fn view(&self) -> Seq<Seq<Seq<int>>> {
        Seq::new(self.layers@.len(), |k: int| digests(self.layers@[k]@))
    }
}

impl MerkleTree {
    /// The tree over the given leaves.
    pub open spec fn is_tree<H: Fn(Digest, Digest) -> Digest>(
        &self,
        h: H,
        leaves: Seq<Seq<int>>,
    ) -> bool {
        &&& self@.len() == log2(leaves.len() as int) + 1
        &&& forall|k: int| 0 <= k < self@.len() ==> #[trigger] self@[k] == layer_at(h, leaves, k as nat)
    }

    /// There are as many layers and nodes as a tree with the given number of leaves has
    /// below its root.
    pub open spec fn has_paths(&self, num_leaves: int) -> bool {
        &&& self@.len() >= log2(num_leaves)
        &&& forall|k: int, i: int|
            0 <= k < log2(num_leaves) && 0 <= i < num_leaves ==> sibling(
                #[trigger] ancestor_at(i, k as nat),
            ) < self@[k].len()
    }

    /// Build the tree over the given leaf digests.
    pub fn from_first_layer<H: Fn(Digest, Digest) -> Digest>(
        h: &H,
        first_layer: Vec<[F; 8]>,
    ) -> (r: Self)
        requires
            is_compression(*h),
            is_pow2(first_layer@.len() as int),
        ensures
            r.is_tree(*h, digests(first_layer@)),
    {
        let ghost leaves = digests(first_layer@);
        let ghost height = log2(leaves.len() as int);
        let mut current: Vec<[F; 8]> = first_layer;
        let mut layers: Vec<Vec<[F; 8]>> = Vec::new();
        while current.len() > 1
            invariant
                is_compression(*h),
                is_pow2(current@.len() as int),
                height == log2(leaves.len() as int),
                layers@.len() + log2(current@.len() as int) == height,
                digests(current@) == layer_at(*h, leaves, layers@.len()),
                forall|k: int|
                    0 <= k < layers@.len() ==> digests((#[trigger] layers@[k])@) == layer_at(
                        *h,
                        leaves,
                        k as nat,
                    ),
            decreases current@.len(),
        {
            proof {
                lemma_log2_half(current@.len() as int);
            }
            let next = compress_layer(h, &current);
            let ghost before = layers@;
            layers.push(current);
            current = next;
            proof {
                assert(digests(current@).len() == current@.len());
                assert(layers@.len() == before.len() + 1);
            }
        }
        proof {
            lemma_pow2_log2(current@.len() as int);
            lemma_log2_one();
        }
        layers.push(current);
        let r = MerkleTree { layers };
        assert forall|k: int| 0 <= k < r@.len() implies #[trigger] r@[k] == layer_at(
            *h,
            leaves,
            k as nat,
        ) by {
            assert(r@[k] == digests(r.layers@[k]@));
        }
        r
    }

    /// The root digest.
    pub fn root(&self) -> (d: Digest)
        requires
            self.layers@.len() > 0,
            self.layers@.last()@.len() > 0,
        ensures
            digest_view(d) == self@.last()[0],
    {
        self.layers[self.layers.len() - 1][0]
    }

    /// The siblings on the path from a leaf up through `log_height` layers.
    pub fn open_siblings(&self, leaf_index: usize, log_height: usize) -> (r: Vec<[F; 8]>)
        requires
            leaf_index < usize::MAX,
            self.layers@.len() >= log_height,
            forall|k: int|
                0 <= k < log_height ==> sibling(
                    #[trigger] ancestor_at(leaf_index as int, k as nat),
                ) < self.layers@[k]@.len(),
        ensures
            r@.len() == log_height,
            forall|k: int|
                0 <= k < log_height ==> #[trigger] digests(r@)[k] == self@[k][sibling(
                    ancestor_at(leaf_index as int, k as nat),
                )],
    {
        let mut out: Vec<[F; 8]> = Vec::with_capacity(log_height);
        let mut index: usize = leaf_index;
        let mut k: usize = 0;
        while k < log_height
            invariant
                k <= log_height <= self.layers@.len(),
                index == ancestor_at(leaf_index as int, k as nat),
                index < usize::MAX,
                forall|j: int|
                    0 <= j < log_height ==> sibling(
                        #[trigger] ancestor_at(leaf_index as int, j as nat),
                    ) < self.layers@[j]@.len(),
                out@.len() == k,
                forall|j: int|
                    0 <= j < k ==> #[trigger] digests(out@)[j] == self@[j][sibling(
                        ancestor_at(leaf_index as int, j as nat),
                    )],
            decreases log_height - k,
        {
            let ghost before = out@;
            let other: usize = if index % 2 == 0 {
                index + 1
            } else {
                index - 1
            };
            proof {
                let j = k as int;
                assert(other == sibling(ancestor_at(leaf_index as int, j as nat)));
                assert(other < self.layers@[j]@.len());
            }
            out.push(self.layers[k][other]);
            proof {
                assert forall|j: int| 0 <= j < k + 1 implies #[trigger] digests(out@)[j]
                    == self@[j][sibling(ancestor_at(leaf_index as int, j as nat))] by {
                    if j < k {
                        assert(digests(out@)[j] == digests(before)[j]);
                    }
                }
            }
            index = index / 2;
            k = k + 1;
        }
        out
    }
}

/// Compress neighbours.
fn compress_layer<H: Fn(Digest, Digest) -> Digest>(h: &H, layer: &Vec<[F; 8]>) -> (r: Vec<[F; 8]>)
    requires
        is_compression(*h),
    ensures
        digests(r@) == next_layer(*h, digests(layer@)),
{
    let n: usize = layer.len();
    let half: usize = n / 2;
    let mut out: Vec<[F; 8]> = Vec::with_capacity(half);
    let mut i: usize = 0;
    while i < half
        invariant
            is_compression(*h),
            n == layer@.len(),
            i <= half == n / 2,
            out@.len() == i,
            forall|j: int|
                0 <= j < i ==> digest_view(#[trigger] out@[j]) == compress(
                    *h,
                    digest_view(layer@[2 * j]),
                    digest_view(layer@[2 * j + 1]),
                ),
        decreases half - i,
    {
        let d = compress_pair(h, &layer[2 * i], &layer[2 * i + 1]);
        out.push(d);
        i = i + 1;
    }
    assert(digests(out@) =~= next_layer(*h, digests(layer@)));
    out
}

/// Build the tree of a codeword with the given number of evaluations per leaf.
fn build_merkle_tree_with_epl<H: Fn(Digest, Digest) -> Digest>(
    h: &H,
    codeword: &Codeword,
    epl: usize,
) -> (r: MerkleTree)
    requires
        is_compression(*h),
        commit_params(codeword@.len() as int, epl as int),
    ensures
        r.is_tree(*h, leaf_digests(*h, codeword@, epl as int)),
{
    let n: usize = codeword.evals.len();
    proof {
        lemma_commit_params(n as int, epl as int);
    }
    let num_leaves: usize = n / epl;
    let mut first_layer: Vec<[F; 8]> = Vec::with_capacity(num_leaves);
    let mut i: usize = 0;
    while i < num_leaves
        invariant
            is_compression(*h),
            n == codeword@.len(),
            n == epl * (n as int / epl as int),
            num_leaves == n as int / epl as int,
            epl > 0,
            leaf_len(epl as int),
            i <= num_leaves,
            first_layer@.len() == i,
            forall|j: int|
                0 <= j < i ==> digest_view(#[trigger] first_layer@[j]) == leaf_hash(
                    *h,
                    leaf_values(codeword@, epl as int, j),
                ),
        decreases num_leaves - i,
    {
        proof {
            lemma_leaf_bound(n as int, epl as int, i as int);
        }
        let start: usize = i * epl;
        let values = copy_range(codeword.evals.as_slice(), start, start + epl);
        assert(fseq(values@) =~= leaf_values(codeword@, epl as int, i as int));
        first_layer.push(hash_leaf_ltr(h, values.as_slice()));
        i = i + 1;
    }
    assert(digests(first_layer@) =~= leaf_digests(*h, codeword@, epl as int));
    assert(digests(first_layer@).len() == first_layer@.len());
    MerkleTree::from_first_layer(h, first_layer)
}

/// The layers of a tree halve in size; the one `k` levels up has the leaf count over
/// `2^k` nodes.
proof fn lemma_layer_len<H: Fn(Digest, Digest) -> Digest>(h: H, leaves: Seq<Seq<int>>, k: nat)
    requires
        is_pow2(leaves.len() as int),
        k <= log2(leaves.len() as int),
    ensures
        is_pow2(layer_at(h, leaves, k).len() as int),
        log2(layer_at(h, leaves, k).len() as int) == log2(leaves.len() as int) - k,
    decreases k,
{
    if k > 0 {
        lemma_layer_len(h, leaves, (k - 1) as nat);
        lemma_log2_half(layer_at(h, leaves, (k - 1) as nat).len() as int);
    }
}

/// Every leaf has an ancestor in each layer, and below the root the ancestor has a
/// neighbour.
proof fn lemma_ancestor_in_layer<H: Fn(Digest, Digest) -> Digest>(
    h: H,
    leaves: Seq<Seq<int>>,
    index: int,
    k: nat,
)
    requires
        is_pow2(leaves.len() as int),
        k <= log2(leaves.len() as int),
        0 <= index < leaves.len(),
    ensures
        0 <= ancestor_at(index, k) < layer_at(h, leaves, k).len(),
        k < log2(leaves.len() as int) ==> 0 <= sibling(ancestor_at(index, k)) < layer_at(
            h,
            leaves,
            k,
        ).len(),
    decreases k,
{
    lemma_layer_len(h, leaves, k);
    if k > 0 {
        lemma_ancestor_in_layer(h, leaves, index, (k - 1) as nat);
        lemma_layer_len(h, leaves, (k - 1) as nat);
        lemma_log2_half(layer_at(h, leaves, (k - 1) as nat).len() as int);
    }
    if k < log2(leaves.len() as int) {
        let len = layer_at(h, leaves, k).len() as int;
        lemma_pow2_log2(len);
        lemma_log2_half(len);
    }
}

/// A tree has a root, and a path for every leaf.
pub proof fn lemma_tree_shape<H: Fn(Digest, Digest) -> Digest>(
    tree: MerkleTree,
    h: H,
    leaves: Seq<Seq<int>>,
)
    requires
        is_pow2(leaves.len() as int),
        tree.is_tree(h, leaves),
    ensures
        tree.has_paths(leaves.len() as int),
        tree.layers@.len() > 0,
        tree.layers@.last()@.len() > 0,
        tree@.last()[0] == merkle_root(h, leaves),
{
    let height = log2(leaves.len() as int);
    lemma_layer_len(h, leaves, height);
    lemma_pow2_log2(layer_at(h, leaves, height).len() as int);
    assert(tree@[height as int] == layer_at(h, leaves, height));
    assert(tree@[height as int] == digests(tree.layers@[height as int]@));
    assert forall|k: int, i: int| 0 <= k < height && 0 <= i < leaves.len() implies sibling(
        #[trigger] ancestor_at(i, k as nat),
    ) < tree@[k].len() by {
        lemma_ancestor_in_layer(h, leaves, i, k as nat);
        assert(tree@[k] == layer_at(h, leaves, k as nat));
    }
}

/// Commit to a codeword with the default leaf size.
pub fn commit_codeword<H: Fn(Digest, Digest) -> Digest>(h: &H, codeword: &Codeword) -> (r:
    Commitment)
    requires
        is_compression(*h),
        commit_params(codeword@.len() as int, EVALS_PER_LEAF as int),
    ensures
        r@ == codeword_root(*h, codeword@, EVALS_PER_LEAF as int),
{
    commit_codeword_epl(h, codeword, EVALS_PER_LEAF)
}

/// Commit to a codeword with a specific leaf size.
pub fn commit_codeword_epl<H: Fn(Digest, Digest) -> Digest>(
    h: &H,
    codeword: &Codeword,
    epl: usize,
) -> (r: Commitment)
    requires
        is_compression(*h),
        commit_params(codeword@.len() as int, epl as int),
    ensures
        r@ == codeword_root(*h, codeword@, epl as int),
{
    commit_codeword_with_tree_epl(h, codeword, epl).0
}

/// Commit to a codeword and return the tree as well, with the default leaf size.
pub fn commit_codeword_with_tree<H: Fn(Digest, Digest) -> Digest>(
    h: &H,
    codeword: &Codeword,
) -> (r: (Commitment, MerkleTree))
    requires
        is_compression(*h),
        commit_params(codeword@.len() as int, EVALS_PER_LEAF as int),
    ensures
        r.0@ == codeword_root(*h, codeword@, EVALS_PER_LEAF as int),
        r.1.is_tree(*h, leaf_digests(*h, codeword@, EVALS_PER_LEAF as int)),
        r.1.has_paths(codeword@.len() as int / EVALS_PER_LEAF as int),
{
    commit_codeword_with_tree_epl(h, codeword, EVALS_PER_LEAF)
}

/// Commit to a codeword and return the tree as well, with a specific leaf size.
pub fn commit_codeword_with_tree_epl<H: Fn(Digest, Digest) -> Digest>(
    h: &H,
    codeword: &Codeword,
    epl: usize,
) -> (r: (Commitment, MerkleTree))
    requires
        is_compression(*h),
        commit_params(codeword@.len() as int, epl as int),
    ensures
        r.0@ == codeword_root(*h, codeword@, epl as int),
        r.1.is_tree(*h, leaf_digests(*h, codeword@, epl as int)),
        r.1.has_paths(codeword@.len() as int / epl as int),
{
    let tree = build_merkle_tree_with_epl(h, codeword, epl);
    proof {
        lemma_commit_params(codeword@.len() as int, epl as int);
        lemma_tree_shape(tree, *h, leaf_digests(*h, codeword@, epl as int));
    }
    let commitment = Commitment { root: tree.root() };
    (commitment, tree)
}

/// Open a codeword at an evaluation position with the default leaf size.
pub fn open_position(codeword: &Codeword, tree: &MerkleTree, position: usize) -> (r: Opening)
    requires
        position < codeword@.len(),
        codeword@.len() as int % EVALS_PER_LEAF as int == 0,
        tree.has_paths(codeword@.len() as int / EVALS_PER_LEAF as int),
    ensures
        is_opening(r, codeword@, tree@, position as int, EVALS_PER_LEAF as int),
{
    open_position_epl(codeword, tree, position, EVALS_PER_LEAF)
}

/// The opening of `position` holds its leaf and the siblings on the leaf's path.
pub open spec fn is_opening(
    r: Opening,
    evals: Seq<int>,
    tree: Seq<Seq<Seq<int>>>,
    position: int,
    epl: int,
) -> bool {
    &&& r.leaf_index == position / epl
    &&& fseq(r.values@) == leaf_values(evals, epl, position / epl)
    &&& r.siblings@.len() == log2(evals.len() as int / epl)
    &&& forall|k: int|
        0 <= k < r.siblings@.len() ==> #[trigger] digests(r.siblings@)[k] == tree[k][sibling(
            ancestor_at(position / epl, k as nat),
        )]
}

/// Open a codeword at an evaluation position: the leaf that contains it and the
/// authentication path.
pub fn open_position_epl(
    codeword: &Codeword,
    tree: &MerkleTree,
    position: usize,
    epl: usize,
) -> (r: Opening)
    requires
        epl > 0,
        position < codeword@.len(),
        codeword@.len() as int % epl as int == 0,
        tree.has_paths(codeword@.len() as int / epl as int),
    ensures
        is_opening(r, codeword@, tree@, position as int, epl as int),
{
    let n: usize = codeword.evals.len();
    let leaf_index: usize = position / epl;
    let num_leaves: usize = n / epl;
    proof {
        let (p, e) = (position as int, epl as int);
        vstd::arithmetic::div_mod::lemma_fundamental_div_mod(n as int, e);
        vstd::arithmetic::div_mod::lemma_fundamental_div_mod(p, e);
        let (i, q) = (p / e, n as int / e);
        assert(i < q) by (nonlinear_arith)
            requires
                p == e * i + p % e,
                0 <= p % e,
                n == e * q,
                p < n,
                e > 0,
        ;
        assert(0 <= i) by (nonlinear_arith)
            requires
                p == e * i + p % e,
                p % e < e,
                0 <= p,
                e > 0,
        ;
        lemma_leaf_bound(n as int, e, i);
        assert forall|k: int| 0 <= k < log2(num_leaves as int) implies sibling(
            #[trigger] ancestor_at(leaf_index as int, k as nat),
        ) < tree.layers@[k]@.len() by {
            assert(tree@[k] == digests(tree.layers@[k]@));
        }
    }
    let log_height: usize = ilog2(num_leaves);
    let siblings = tree.open_siblings(leaf_index, log_height);
    let start: usize = leaf_index * epl;
    let values = copy_range(codeword.evals.as_slice(), start, start + epl);
    assert(fseq(values@) =~= leaf_values(codeword@, epl as int, leaf_index as int));
    Opening { leaf_index, values, siblings }
}

/// Verify an opening against a commitment with the default leaf size.
pub fn verify_opening<H: Fn(Digest, Digest) -> Digest>(
    h: &H,
    commitment: &Commitment,
    opening: &Opening,
    codeword_length: usize,
) -> (r: bool)
    requires
        is_compression(*h),
        codeword_length >= EVALS_PER_LEAF,
    ensures
        r == opens(
            *h,
            commitment@,
            *opening,
            EVALS_PER_LEAF as int,
            log2(codeword_length as int / EVALS_PER_LEAF as int),
        ),
{
    verify_opening_epl(h, commitment, opening, codeword_length, EVALS_PER_LEAF)
}

/// Verify an opening against a commitment: check that it holds a whole leaf, recompute the
/// leaf hash and walk the authentication path to the root.
pub fn verify_opening_epl<H: Fn(Digest, Digest) -> Digest>(
    h: &H,
    commitment: &Commitment,
    opening: &Opening,
    codeword_length: usize,
    epl: usize,
) -> (r: bool)
    requires
        is_compression(*h),
        0 < epl <= codeword_length,
        fits_leaf(*opening, epl as int, log2(codeword_length as int / epl as int)) ==> leaf_len(
            epl as int,
        ),
    ensures
        r == opens(
            *h,
            commitment@,
            *opening,
            epl as int,
            log2(codeword_length as int / epl as int),
        ),
{
    let num_leaves: usize = codeword_length / epl;
    assert(num_leaves >= 1) by (nonlinear_arith)
        requires
            num_leaves == codeword_length as int / epl as int,
            0 < epl <= codeword_length,
    ;
    let log_height: usize = ilog2(num_leaves);
    if opening.values.len() != epl || opening.siblings.len() != log_height {
        return false;
    }
    let mut node = hash_leaf_ltr(h, opening.values.as_slice());
    let mut index: usize = opening.leaf_index;
    let mut k: usize = 0;
    let ghost sibs = digests(opening.siblings@);
    assert(sibs.skip(0) =~= sibs);
    while k < opening.siblings.len()
        invariant
            is_compression(*h),
            k <= opening.siblings@.len(),
            sibs == digests(opening.siblings@),
            path_root(*h, digest_view(node), index as int, sibs.skip(k as int)) == path_root(
                *h,
                leaf_hash(*h, fseq(opening.values@)),
                opening.leaf_index as int,
                sibs,
            ),
        decreases opening.siblings@.len() - k,
    {
        assert(sibs.skip(k as int).drop_first() =~= sibs.skip(k + 1));
        node = if index % 2 == 0 {
            compress_pair(h, &node, &opening.siblings[k])
        } else {
            compress_pair(h, &opening.siblings[k], &node)
        };
        index = index / 2;
        k = k + 1;
    }
    digest_eq(&node, &commitment.root)
}

// Laws of the commitment.

/// The path of a leaf leads to the root.
proof fn lemma_path_leads_to_root<H: Fn(Digest, Digest) -> Digest>(
    h: H,
    leaves: Seq<Seq<int>>,
    index: int,
    siblings: Seq<Seq<int>>,
    k: nat,
)
    requires
        is_pow2(leaves.len() as int),
        0 <= index < leaves.len(),
        siblings.len() == log2(leaves.len() as int),
        k <= siblings.len(),
        forall|j: int|
            0 <= j < siblings.len() ==> #[trigger] siblings[j] == layer_at(
                h,
                leaves,
                j as nat,
            )[sibling(ancestor_at(index, j as nat))],
    ensures
        path_root(
            h,
            layer_at(h, leaves, k)[ancestor_at(index, k)],
            ancestor_at(index, k),
            siblings.skip(k as int),
        ) == merkle_root(h, leaves),
    decreases siblings.len() - k,
{
    let height = siblings.len();
    let layer = layer_at(h, leaves, k);
    let a = ancestor_at(index, k);
    lemma_ancestor_in_layer(h, leaves, index, k);
    if k == height {
        lemma_layer_len(h, leaves, k);
        lemma_pow2_log2(layer.len() as int);
        lemma_log2_one();
        vstd::arithmetic::power2::lemma2_to64();
    } else {
        lemma_path_leads_to_root(h, leaves, index, siblings, k + 1);
        lemma_ancestor_in_layer(h, leaves, index, k + 1);
        let up = layer_at(h, leaves, k + 1);
        let b = ancestor_at(index, k + 1);
        assert(up[b] == compress(h, layer[2 * b], layer[2 * b + 1]));
        assert(siblings[k as int] == layer[sibling(a)]);
        assert(siblings.skip(k as int).drop_first() =~= siblings.skip((k + 1) as int));
    }
}

/// Opening a committed codeword at any position gives an opening that verifies
/// against the commitment, and the opened leaf holds the evaluation at that position.
pub proof fn lemma_opening_verifies<H: Fn(Digest, Digest) -> Digest>(
    h: H,
    evals: Seq<int>,
    epl: int,
    tree: MerkleTree,
    position: int,
    opening: Opening,
)
    requires
        commit_params(evals.len() as int, epl),
        0 <= position < evals.len(),
        tree.is_tree(h, leaf_digests(h, evals, epl)),
        is_opening(opening, evals, tree@, position, epl),
    ensures
        opens(h, codeword_root(h, evals, epl), opening, epl, log2(evals.len() as int / epl)),
        fseq(opening.values@)[position % epl] == evals[position],
{
    let n = evals.len() as int;
    let leaves = leaf_digests(h, evals, epl);
    let index = position / epl;
    let siblings = digests(opening.siblings@);
    lemma_commit_params(n, epl);
    vstd::arithmetic::div_mod::lemma_fundamental_div_mod(position, epl);
    let q = n / epl;
    let rem = position % epl;
    assert(0 <= index < q) by (nonlinear_arith)
        requires
            position == epl * index + rem,
            0 <= rem < epl,
            n == epl * q,
            0 <= position < n,
    ;
    lemma_leaf_bound(n, epl, index);
    assert forall|j: int| 0 <= j < siblings.len() implies #[trigger] siblings[j] == layer_at(
        h,
        leaves,
        j as nat,
    )[sibling(ancestor_at(index, j as nat))] by {
        assert(tree@[j] == layer_at(h, leaves, j as nat));
    }
    lemma_path_leads_to_root(h, leaves, index, siblings, 0);
    assert(siblings.skip(0) =~= siblings);
    assert(fseq(opening.values@).len() == opening.values@.len());
    assert(index * epl + rem == position) by (nonlinear_arith)
        requires
            position == epl * index + rem,
    ;
}

/// The pair of a node at position `index` and its sibling, in order.
pub open spec fn node_pair(node: Seq<int>, index: int, sib: Seq<int>) -> (Seq<int>, Seq<int>) {
    if index % 2 == 0 {
        (node, sib)
    } else {
        (sib, node)
    }
}

/// The pairs that walking a path compresses, from the node up.
pub open spec fn path_pairs<H: Fn(Digest, Digest) -> Digest>(
    h: H,
    node: Seq<int>,
    index: int,
    siblings: Seq<Seq<int>>,
) -> Seq<(Seq<int>, Seq<int>)>
    decreases siblings.len(),
{
    if siblings.len() == 0 {
        Seq::empty()
    } else {
        let p = node_pair(node, index, siblings[0]);
        seq![p] + path_pairs(h, compress(h, p.0, p.1), index / 2, siblings.drop_first())
    }
}

/// The pairs that verifying an opening compresses: those of the leaf's hash, then those
/// of the path.
pub open spec fn hashed_pairs<H: Fn(Digest, Digest) -> Digest>(h: H, o: Opening) -> Set<
    (Seq<int>, Seq<int>),
> {
    let values = fseq(o.values@);
    (leaf_pairs(h, values) + path_pairs(
        h,
        leaf_hash(h, values),
        o.leaf_index as int,
        digests(o.siblings@),
    )).to_set()
}

/// The pairs that a tree over the given leaves compresses.
pub open spec fn tree_pairs<H: Fn(Digest, Digest) -> Digest>(h: H, leaves: Seq<Seq<int>>) -> Set<
    (Seq<int>, Seq<int>),
> {
    Set::new(
        |p: (Seq<int>, Seq<int>)|
            exists|k: nat, j: int| #[trigger] is_tree_pair(h, leaves, k, j, p),
    )
}

/// Node `j` of the layer above layer `k` compresses the pair.
pub open spec fn is_tree_pair<H: Fn(Digest, Digest) -> Digest>(
    h: H,
    leaves: Seq<Seq<int>>,
    k: nat,
    j: int,
    p: (Seq<int>, Seq<int>),
) -> bool {
    let layer = layer_at(h, leaves, k);
    &&& k < log2(leaves.len() as int)
    &&& 0 <= j
    &&& 2 * j + 1 < layer.len()
    &&& p == (layer[2 * j], layer[2 * j + 1])
}

/// The pairs that committing to a codeword compresses: those of the leaves' hashes and
/// those of the tree.
pub open spec fn committed_pairs<H: Fn(Digest, Digest) -> Digest>(
    h: H,
    evals: Seq<int>,
    epl: int,
) -> Set<(Seq<int>, Seq<int>)> {
    Set::new(
        |p: (Seq<int>, Seq<int>)|
            tree_pairs(h, leaf_digests(h, evals, epl)).contains(p) || exists|i: int|
                0 <= i < evals.len() as int / epl && #[trigger] leaf_pairs(
                    h,
                    leaf_values(evals, epl, i),
                ).contains(p),
    )
}

/// Two different paths of the same length from one position to the same root compress
/// colliding pairs.
proof fn lemma_path_binding<H: Fn(Digest, Digest) -> Digest>(
    h: H,
    a: Seq<int>,
    b: Seq<int>,
    index: int,
    s: Seq<Seq<int>>,
    t: Seq<Seq<int>>,
)
    requires
        is_compression(h),
        is_digest(a),
        is_digest(b),
        s.len() == t.len(),
        a != b || s != t,
        forall|i: int| 0 <= i < s.len() ==> is_digest(#[trigger] s[i]),
        forall|i: int| 0 <= i < t.len() ==> is_digest(#[trigger] t[i]),
        path_root(h, a, index, s) == path_root(h, b, index, t),
    ensures
        pairs_collide(
            h,
            path_pairs(h, a, index, s).to_set(),
            path_pairs(h, b, index, t).to_set(),
        ),
    decreases s.len(),
{
    if s.len() == 0 {
        assert(s =~= t);
    } else {
        let (p, q) = (node_pair(a, index, s[0]), node_pair(b, index, t[0]));
        let (u, v) = (compress(h, p.0, p.1), compress(h, q.0, q.1));
        let (s1, t1) = (s.drop_first(), t.drop_first());
        let (ps, pt) = (path_pairs(h, a, index, s), path_pairs(h, b, index, t));
        let (qs, qt) = (path_pairs(h, u, index / 2, s1), path_pairs(h, v, index / 2, t1));
        lemma_compress(h, p.0, p.1);
        lemma_compress(h, q.0, q.1);
        assert(ps[0] == p && pt[0] == q);
        if u == v && p != q {
            assert(is_digest(s[0]) && is_digest(t[0]));
            assert(ps.to_set().contains(p) && pt.to_set().contains(q));
        } else {
            assert(u != v || s1 != t1) by {
                if u == v && s1 == t1 {
                    assert(s =~= seq![s[0]] + s1);
                    assert(t =~= seq![t[0]] + t1);
                }
            }
            assert forall|i: int| 0 <= i < s1.len() implies is_digest(#[trigger] s1[i]) by {
                assert(s1[i] == s[i + 1]);
            }
            assert forall|i: int| 0 <= i < t1.len() implies is_digest(#[trigger] t1[i]) by {
                assert(t1[i] == t[i + 1]);
            }
            lemma_path_binding(h, u, v, index / 2, s1, t1);
            assert forall|x: (Seq<int>, Seq<int>)| #[trigger]
                qs.to_set().contains(x) implies ps.to_set().contains(x) by {
                let i = choose|i: int| 0 <= i < qs.len() && qs[i] == x;
                assert(ps[i + 1] == x);
            }
            assert forall|x: (Seq<int>, Seq<int>)| #[trigger]
                qt.to_set().contains(x) implies pt.to_set().contains(x) by {
                let i = choose|i: int| 0 <= i < qt.len() && qt[i] == x;
                assert(pt[i + 1] == x);
            }
            lemma_collide_widen(h, qs.to_set(), qt.to_set(), ps.to_set(), pt.to_set());
        }
    }
}

/// The pairs of an opening's leaf and those of its path are among its pairs.
proof fn lemma_hashed_parts<H: Fn(Digest, Digest) -> Digest>(h: H, o: Opening)
    ensures
        ({
            let values = fseq(o.values@);
            let path = path_pairs(
                h,
                leaf_hash(h, values),
                o.leaf_index as int,
                digests(o.siblings@),
            );
            &&& forall|p: (Seq<int>, Seq<int>)| #[trigger]
                leaf_pairs(h, values).to_set().contains(p) ==> hashed_pairs(h, o).contains(p)
            &&& forall|p: (Seq<int>, Seq<int>)| #[trigger]
                path.to_set().contains(p) ==> hashed_pairs(h, o).contains(p)
        }),
{
    let values = fseq(o.values@);
    let leaf = leaf_pairs(h, values);
    let path = path_pairs(h, leaf_hash(h, values), o.leaf_index as int, digests(o.siblings@));
    let all = leaf + path;
    assert forall|p: (Seq<int>, Seq<int>)| #[trigger] leaf.to_set().contains(p) implies hashed_pairs(
        h,
        o,
    ).contains(p) by {
        let i = choose|i: int| 0 <= i < leaf.len() && leaf[i] == p;
        assert(all[i] == p);
    }
    assert forall|p: (Seq<int>, Seq<int>)| #[trigger] path.to_set().contains(p) implies hashed_pairs(
        h,
        o,
    ).contains(p) by {
        let i = choose|i: int| 0 <= i < path.len() && path[i] == p;
        assert(all[leaf.len() + i] == p);
    }
}

/// The elements of field values are canonical.
pub proof fn lemma_fseq_canonical(s: Seq<F>)
    ensures
        canonical_seq(fseq(s)),
{
    let v = fseq(s);
    assert forall|i: int| 0 <= i < v.len() implies crate::field::canonical(#[trigger] v[i]) by {
        s[i].lemma_view_range();
    }
}

/// Position-binding: if two openings of the same leaf verify and differ in their values or
/// their paths, then verifying the first compresses a pair, and verifying the second a
/// different pair, with the same compression.
pub proof fn lemma_opening_binding<H: Fn(Digest, Digest) -> Digest>(
    h: H,
    root: Seq<int>,
    a: Opening,
    b: Opening,
    epl: int,
    height: nat,
)
    requires
        is_compression(h),
        leaf_len(epl),
        opens(h, root, a, epl, height),
        opens(h, root, b, epl, height),
        a.leaf_index == b.leaf_index,
        fseq(a.values@) != fseq(b.values@) || digests(a.siblings@) != digests(b.siblings@),
    ensures
        pairs_collide(h, hashed_pairs(h, a), hashed_pairs(h, b)),
{
    let (va, vb) = (fseq(a.values@), fseq(b.values@));
    let (s, t) = (digests(a.siblings@), digests(b.siblings@));
    lemma_fseq_canonical(a.values@);
    lemma_fseq_canonical(b.values@);
    lemma_hashed_parts(h, a);
    lemma_hashed_parts(h, b);
    let (x, y) = (leaf_hash(h, va), leaf_hash(h, vb));
    let index = a.leaf_index as int;
    if va != vb && x == y {
        lemma_leaf_binding(h, va, vb);
        lemma_collide_widen(
            h,
            leaf_pairs(h, va).to_set(),
            leaf_pairs(h, vb).to_set(),
            hashed_pairs(h, a),
            hashed_pairs(h, b),
        );
    } else {
        lemma_leaf_hash_digest(h, va);
        lemma_leaf_hash_digest(h, vb);
        assert forall|i: int| 0 <= i < s.len() implies is_digest(#[trigger] s[i]) by {
            lemma_digest_view(a.siblings@[i]);
        }
        assert forall|i: int| 0 <= i < t.len() implies is_digest(#[trigger] t[i]) by {
            lemma_digest_view(b.siblings@[i]);
        }
        lemma_path_binding(h, x, y, index, s, t);
        lemma_collide_widen(
            h,
            path_pairs(h, x, index, s).to_set(),
            path_pairs(h, y, index, t).to_set(),
            hashed_pairs(h, a),
            hashed_pairs(h, b),
        );
    }
}

/// Every node of a tree over digests is a digest.
proof fn lemma_layer_digests<H: Fn(Digest, Digest) -> Digest>(
    h: H,
    leaves: Seq<Seq<int>>,
    k: nat,
    i: int,
)
    requires
        is_compression(h),
        forall|j: int| 0 <= j < leaves.len() ==> is_digest(#[trigger] leaves[j]),
        0 <= i < layer_at(h, leaves, k).len(),
    ensures
        is_digest(layer_at(h, leaves, k)[i]),
{
    if k > 0 {
        let below = layer_at(h, leaves, (k - 1) as nat);
        lemma_compress(h, below[2 * i], below[2 * i + 1]);
    }
}

/// The pairs on the path of a leaf are pairs of the tree.
proof fn lemma_path_in_tree<H: Fn(Digest, Digest) -> Digest>(
    h: H,
    leaves: Seq<Seq<int>>,
    index: int,
    siblings: Seq<Seq<int>>,
    k: nat,
    p: (Seq<int>, Seq<int>),
)
    requires
        is_pow2(leaves.len() as int),
        0 <= index < leaves.len(),
        siblings.len() == log2(leaves.len() as int),
        k <= siblings.len(),
        forall|j: int|
            0 <= j < siblings.len() ==> #[trigger] siblings[j] == layer_at(
                h,
                leaves,
                j as nat,
            )[sibling(ancestor_at(index, j as nat))],
        path_pairs(
            h,
            layer_at(h, leaves, k)[ancestor_at(index, k)],
            ancestor_at(index, k),
            siblings.skip(k as int),
        ).contains(p),
    ensures
        tree_pairs(h, leaves).contains(p),
    decreases siblings.len() - k,
{
    let layer = layer_at(h, leaves, k);
    let a = ancestor_at(index, k);
    let rest = siblings.skip(k as int);
    if k < siblings.len() {
        lemma_ancestor_in_layer(h, leaves, index, k);
        lemma_ancestor_in_layer(h, leaves, index, k + 1);
        let b = ancestor_at(index, k + 1);
        let q = node_pair(layer[a], a, rest[0]);
        assert(rest[0] == siblings[k as int]);
        assert(q == (layer[2 * b], layer[2 * b + 1]));
        assert(layer_at(h, leaves, k + 1)[b] == compress(h, q.0, q.1));
        assert(rest.drop_first() =~= siblings.skip((k + 1) as int));
        let all = path_pairs(h, layer[a], a, rest);
        let above = path_pairs(h, compress(h, q.0, q.1), b, siblings.skip((k + 1) as int));
        let i = choose|i: int| 0 <= i < all.len() && all[i] == p;
        if i == 0 {
            assert(p == q);
            assert(is_tree_pair(h, leaves, k, b, p));
        } else {
            assert(above[i - 1] == p);
            lemma_path_in_tree(h, leaves, index, siblings, k + 1, p);
        }
    }
}

/// A commitment fixes each leaf of the codeword: if an opening of a leaf verifies and holds
/// other values than the codeword, then verifying it compresses a pair, and committing to
/// the codeword a different pair, with the same compression.
pub proof fn lemma_opening_sound<H: Fn(Digest, Digest) -> Digest>(
    h: H,
    evals: Seq<int>,
    epl: int,
    o: Opening,
)
    requires
        is_compression(h),
        commit_params(evals.len() as int, epl),
        canonical_seq(evals),
        o.leaf_index < evals.len() as int / epl,
        opens(h, codeword_root(h, evals, epl), o, epl, log2(evals.len() as int / epl)),
        fseq(o.values@) != leaf_values(evals, epl, o.leaf_index as int),
    ensures
        pairs_collide(h, hashed_pairs(h, o), committed_pairs(h, evals, epl)),
{
    let n = evals.len() as int;
    let index = o.leaf_index as int;
    let leaves = leaf_digests(h, evals, epl);
    let height = log2(n / epl);
    lemma_commit_params(n, epl);
    lemma_leaf_bound(n, epl, index);
    assert forall|j: int| 0 <= j < leaves.len() implies is_digest(#[trigger] leaves[j]) by {
        lemma_leaf_bound(n, epl, j);
        lemma_leaf_hash_digest(h, leaf_values(evals, epl, j));
    }
    let s = digests(o.siblings@);
    let t = Seq::new(
        height,
        |k: int| layer_at(h, leaves, k as nat)[sibling(ancestor_at(index, k as nat))],
    );
    lemma_path_leads_to_root(h, leaves, index, t, 0);
    assert(t.skip(0) =~= t);
    lemma_fseq_canonical(o.values@);
    lemma_hashed_parts(h, o);
    let (va, vb) = (fseq(o.values@), leaf_values(evals, epl, index));
    let (x, y) = (leaf_hash(h, va), leaf_hash(h, vb));
    let committed = committed_pairs(h, evals, epl);
    if x == y {
        lemma_leaf_binding(h, va, vb);
        assert forall|p: (Seq<int>, Seq<int>)| #[trigger]
            leaf_pairs(h, vb).to_set().contains(p) implies committed.contains(p) by {
            assert(leaf_pairs(h, leaf_values(evals, epl, index)).contains(p));
        }
        lemma_collide_widen(
            h,
            leaf_pairs(h, va).to_set(),
            leaf_pairs(h, vb).to_set(),
            hashed_pairs(h, o),
            committed,
        );
    } else {
        lemma_leaf_hash_digest(h, va);
        lemma_leaf_hash_digest(h, vb);
        assert forall|i: int| 0 <= i < s.len() implies is_digest(#[trigger] s[i]) by {
            lemma_digest_view(o.siblings@[i]);
        }
        assert forall|i: int| 0 <= i < t.len() implies is_digest(#[trigger] t[i]) by {
            lemma_ancestor_in_layer(h, leaves, index, i as nat);
            lemma_layer_digests(h, leaves, i as nat, sibling(ancestor_at(index, i as nat)));
        }
        lemma_path_binding(h, x, y, index, s, t);
        let path = path_pairs(h, y, index, t);
        assert forall|p: (Seq<int>, Seq<int>)| #[trigger]
            path.to_set().contains(p) implies committed.contains(p) by {
            assert(path.contains(p));
            lemma_path_in_tree(h, leaves, index, t, 0, p);
        }
        lemma_collide_widen(
            h,
            path_pairs(h, x, index, s).to_set(),
            path.to_set(),
            hashed_pairs(h, o),
            committed,
        );
    }
}

/// Trees over different leaves, equally many, with the same root compress colliding pairs.
proof fn lemma_layers_binding<H: Fn(Digest, Digest) -> Digest>(
    h: H,
    a: Seq<Seq<int>>,
    b: Seq<Seq<int>>,
)
    requires
        is_compression(h),
        a.len() == b.len(),
        is_pow2(a.len() as int),
        a != b,
        forall|i: int| 0 <= i < a.len() ==> is_digest(#[trigger] a[i]),
        forall|i: int| 0 <= i < b.len() ==> is_digest(#[trigger] b[i]),
        merkle_root(h, a) == merkle_root(h, b),
    ensures
        pairs_collide(h, tree_pairs(h, a), tree_pairs(h, b)),
    decreases a.len(),
{
    let n = a.len() as int;
    lemma_pow2_log2(n);
    if n == 1 {
        lemma_log2_one();
        assert(a =~= b);
    } else {
        lemma_log2_half(n);
        let (u, v) = (next_layer(h, a), next_layer(h, b));
        lemma_merkle_root_next(h, a);
        lemma_merkle_root_next(h, b);
        if u == v {
            assert(exists|i: int| 0 <= i < n && a[i] != b[i]) by {
                if forall|i: int| 0 <= i < n ==> a[i] == b[i] {
                    assert(a =~= b);
                }
            }
            let i = choose|i: int| 0 <= i < n && a[i] != b[i];
            let j = i / 2;
            let (p, q) = ((a[2 * j], a[2 * j + 1]), (b[2 * j], b[2 * j + 1]));
            assert(u[j] == compress(h, a[2 * j], a[2 * j + 1]));
            assert(v[j] == compress(h, b[2 * j], b[2 * j + 1]));
            assert(is_digest(a[2 * j]) && is_digest(a[2 * j + 1]));
            assert(is_digest(b[2 * j]) && is_digest(b[2 * j + 1]));
            assert(is_tree_pair(h, a, 0, j, p));
            assert(is_tree_pair(h, b, 0, j, q));
            assert(tree_pairs(h, a).contains(p) && tree_pairs(h, b).contains(q));
        } else {
            assert forall|i: int| 0 <= i < u.len() implies is_digest(#[trigger] u[i]) by {
                lemma_compress(h, a[2 * i], a[2 * i + 1]);
            }
            assert forall|i: int| 0 <= i < v.len() implies is_digest(#[trigger] v[i]) by {
                lemma_compress(h, b[2 * i], b[2 * i + 1]);
            }
            lemma_layers_binding(h, u, v);
            lemma_next_layer_pairs(h, a);
            lemma_next_layer_pairs(h, b);
            lemma_collide_widen(
                h,
                tree_pairs(h, u),
                tree_pairs(h, v),
                tree_pairs(h, a),
                tree_pairs(h, b),
            );
        }
    }
}

/// The pairs of the tree over the next layer are pairs of the tree.
proof fn lemma_next_layer_pairs<H: Fn(Digest, Digest) -> Digest>(h: H, a: Seq<Seq<int>>)
    requires
        is_pow2(a.len() as int),
        a.len() >= 2,
    ensures
        forall|p: (Seq<int>, Seq<int>)| #[trigger]
            tree_pairs(h, next_layer(h, a)).contains(p) ==> tree_pairs(h, a).contains(p),
{
    let u = next_layer(h, a);
    lemma_log2_half(a.len() as int);
    assert forall|p: (Seq<int>, Seq<int>)| #[trigger]
        tree_pairs(h, u).contains(p) implies tree_pairs(h, a).contains(p) by {
        let (k, j) = choose|k: nat, j: int| #[trigger] is_tree_pair(h, u, k, j, p);
        lemma_layer_shift(h, a, k);
        assert(is_tree_pair(h, a, k + 1, j, p));
    }
}

/// The root over a layer is the root over the next one.
proof fn lemma_merkle_root_next<H: Fn(Digest, Digest) -> Digest>(h: H, a: Seq<Seq<int>>)
    requires
        is_pow2(a.len() as int),
        a.len() >= 2,
    ensures
        merkle_root(h, a) == merkle_root(h, next_layer(h, a)),
{
    lemma_log2_half(a.len() as int);
    lemma_layer_shift(h, a, (log2(a.len() as int) - 1) as nat);
}

proof fn lemma_layer_shift<H: Fn(Digest, Digest) -> Digest>(h: H, a: Seq<Seq<int>>, k: nat)
    ensures
        layer_at(h, a, k + 1) == layer_at(h, next_layer(h, a), k),
    decreases k,
{
    if k == 0 {
        reveal_with_fuel(layer_at, 2);
    } else {
        lemma_layer_shift(h, a, (k - 1) as nat);
    }
}

/// A commitment binds the codeword: if different codewords of the same length have the same
/// commitment, then committing to the first compresses a pair, and committing to the second
/// a different pair, with the same compression.
pub proof fn lemma_commitment_binding<H: Fn(Digest, Digest) -> Digest>(
    h: H,
    a: Seq<int>,
    b: Seq<int>,
    epl: int,
)
    requires
        is_compression(h),
        commit_params(a.len() as int, epl),
        a.len() == b.len(),
        canonical_seq(a),
        canonical_seq(b),
        a != b,
        codeword_root(h, a, epl) == codeword_root(h, b, epl),
    ensures
        pairs_collide(h, committed_pairs(h, a, epl), committed_pairs(h, b, epl)),
{
    let n = a.len() as int;
    lemma_commit_params(n, epl);
    let (u, v) = (leaf_digests(h, a, epl), leaf_digests(h, b, epl));
    let q = n / epl;
    assert(exists|p: int| 0 <= p < n && a[p] != b[p]) by {
        if forall|p: int| 0 <= p < n ==> a[p] == b[p] {
            assert(a =~= b);
        }
    }
    let p = choose|p: int| 0 <= p < n && a[p] != b[p];
    let i = p / epl;
    let r = p % epl;
    vstd::arithmetic::div_mod::lemma_fundamental_div_mod(p, epl);
    assert(0 <= i < q && i * epl + r == p) by (nonlinear_arith)
        requires
            p == epl * i + r,
            0 <= r < epl,
            n == epl * q,
            0 <= p < n,
    ;
    lemma_leaf_bound(n, epl, i);
    let (x, y) = (leaf_values(a, epl, i), leaf_values(b, epl, i));
    assert(x[r] == a[p] && y[r] == b[p]);
    let (ca, cb) = (committed_pairs(h, a, epl), committed_pairs(h, b, epl));
    if u[i] == v[i] {
        lemma_leaf_binding(h, x, y);
        let (pa, pb) = (leaf_pairs(h, x), leaf_pairs(h, y));
        assert forall|p: (Seq<int>, Seq<int>)| #[trigger]
            pa.to_set().contains(p) implies ca.contains(p) by {
            assert(leaf_pairs(h, leaf_values(a, epl, i)).contains(p));
        }
        assert forall|p: (Seq<int>, Seq<int>)| #[trigger]
            pb.to_set().contains(p) implies cb.contains(p) by {
            assert(leaf_pairs(h, leaf_values(b, epl, i)).contains(p));
        }
        lemma_collide_widen(h, pa.to_set(), pb.to_set(), ca, cb);
    } else {
        assert forall|j: int| 0 <= j < u.len() implies is_digest(#[trigger] u[j]) by {
            lemma_leaf_bound(n, epl, j);
            lemma_leaf_hash_digest(h, leaf_values(a, epl, j));
        }
        assert forall|j: int| 0 <= j < v.len() implies is_digest(#[trigger] v[j]) by {
            lemma_leaf_bound(n, epl, j);
            lemma_leaf_hash_digest(h, leaf_values(b, epl, j));
        }
        assert(u.len() == q);
        lemma_layers_binding(h, u, v);
        lemma_collide_widen(h, tree_pairs(h, u), tree_pairs(h, v), ca, cb);
    }
}

} // verus!
