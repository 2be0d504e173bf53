//! What the proofs of a deep recursion and the leaves under them have in common.

use crate::aggregation::{batch_digests, digest_layer, tree_digest};
use crate::batch::{reference_challenge, BatchProof};
use crate::claims::Reduction;
use crate::deep::{hybrid_parent, unified_parent};
use crate::ext::{fseq, EF};
use crate::field::{F, P as MODULUS};
use crate::hash::is_compression;
use crate::inputs::{chain, lemma_chain_digest, roots};
use crate::proving::unified_leaf_public_input;
use crate::recursion::{
    hybrid_recursion_proved, is_hybrid_step, leading_digest, leading_digests,
    unified_recursion_result, HybridStep,
};
use crate::slices::{chunk, lemma_chunk_bounds, lemma_chunk_total};
use crate::tree::{is_chunk_layer, is_chunk_tree, is_level};
use crate::types::{Batch, Digest};
use crate::vm::{Bytecode, Evaluation, Verified, VmParams, Witness};
use vstd::prelude::*;

verus! {

/// The public input that the unified circuit proves a batch with starts with the hash that
/// stands for the batch at a leaf of the aggregation tree.
pub proof fn lemma_unified_leaf_digest<H: Fn(Digest, Digest) -> Digest, B, P>(
    h: H,
    vm: VmParams,
    bytecode: Bytecode<B>,
    batch: Batch,
    proofs: Seq<BatchProof<P>>,
    i: int,
)
    requires
        is_compression(h),
        0 <= i < proofs.len(),
        proofs[i].commitments@ == batch.commitments@,
    ensures
        leading_digest(unified_leaf_public_input(h, vm, bytecode, batch)) == batch_digests(
            h,
            proofs,
        )[i],
{
    let d = batch_digests(h, proofs)[i];
    lemma_chain_digest(h, seq![chain(h, roots(batch.commitments@))]);
    assert(leading_digest(unified_leaf_public_input(h, vm, bytecode, batch)) =~= d);
}

/// The folding challenges of reference mode count the rounds from one, in every
/// coordinate.
pub proof fn lemma_reference_challenge(i: int)
    requires
        0 <= i < MODULUS - 1,
    ensures
        reference_challenge(i).c0 == i + 1,
        reference_challenge(i).c1 == i + 1,
        reference_challenge(i).c2 == i + 1,
        reference_challenge(i).c3 == i + 1,
        reference_challenge(i).c4 == i + 1,
{
    assert((i + 1) % (MODULUS as int) == i + 1) by (nonlinear_arith)
        requires
            0 <= i < MODULUS - 1,
    ;
}

/// A node whose public input starts with the chain of the hashes that those of its
/// children start with.
pub open spec fn chains_children<H: Fn(Digest, Digest) -> Digest, P>(
    h: H,
    children: Seq<(Vec<F>, P)>,
    c: (Vec<F>, P),
) -> bool {
    leading_digest(fseq(c.0@)) == chain(h, leading_digests(children))
}

/// A layer of such nodes starts with the hashes of the next layer.
proof fn lemma_layer_digests<H: Fn(Digest, Digest) -> Digest, P>(
    h: H,
    node: spec_fn(Seq<(Vec<F>, P)>, (Vec<F>, P)) -> bool,
    layer: Seq<(Vec<F>, P)>,
    k: int,
    next: Seq<(Vec<F>, P)>,
)
    requires
        k > 0,
        forall|s: Seq<(Vec<F>, P)>, c: (Vec<F>, P)| #[trigger] node(s, c) ==> chains_children(h, s, c),
        is_chunk_layer(node, layer, k, next),
    ensures
        leading_digests(next) == digest_layer(h, leading_digests(layer), k),
{
    let n = layer.len() as int;
    let leaves = leading_digests(layer);
    lemma_chunk_total(n, k);
    assert forall|j: int| 0 <= j < next.len() implies #[trigger] leading_digests(next)[j] == chain(
        h,
        chunk(leaves, k, j),
    ) by {
        let part = chunk(layer, k, j);
        assert(node(part, next[j]));
        assert(chains_children(h, part, next[j]));
        lemma_chunk_bounds(n, k, j);
        assert(leading_digests(part) =~= chunk(leaves, k, j));
    }
    assert(leading_digests(next) =~= digest_layer(h, leaves, k));
}

/// The hash at the root of a tree of such nodes is that of the tree over the leaves'.
proof fn lemma_tree_of_chains<H: Fn(Digest, Digest) -> Digest, P>(
    h: H,
    node: spec_fn(Seq<(Vec<F>, P)>, (Vec<F>, P)) -> bool,
    layers: Seq<Seq<(Vec<F>, P)>>,
    k: int,
)
    requires
        k >= 2,
        forall|s: Seq<(Vec<F>, P)>, c: (Vec<F>, P)| #[trigger] node(s, c) ==> chains_children(h, s, c),
        is_chunk_tree(node, layers, k),
        layers[0].len() > 0,
        layers.last().len() == 1,
    ensures
        leading_digest(fseq(layers.last()[0].0@)) == tree_digest(h, leading_digests(layers[0]), k),
    decreases layers.len(),
{
    let leaves = leading_digests(layers[0]);
    if layers.len() == 1 {
        assert(leaves[0] == leading_digest(fseq(layers[0][0].0@)));
    } else {
        let above = layers.skip(1);
        assert forall|l: int| 0 < l < above.len() implies is_level(
            node,
            above[l - 1],
            k,
            #[trigger] above[l],
        ) by {
            assert(above[l] == layers[l + 1]);
            assert(above[l - 1] == layers[l]);
        }
        assert(is_level(node, layers[0], k, layers[1]));
        lemma_chunk_total(layers[0].len() as int, k);
        lemma_layer_digests(h, node, layers[0], k, layers[1]);
        lemma_tree_of_chains(h, node, above, k);
    }
}

/// The proof that is left of a deep recursion with the unified circuit has a public input
/// that starts with the hash at the root of the tree over those of the given proofs.
pub proof fn lemma_deep_unified_digest<
    H: Fn(Digest, Digest) -> Digest,
    B,
    P,
    S,
    V: Fn(&Bytecode<B>, &Vec<F>, &P) -> Result<Verified, String>,
    G: Fn(&Vec<Evaluation>) -> (S, EF),
    R: Fn(S, &Bytecode<B>, &Vec<Evaluation>, &Vec<EF>, EF) -> Reduction,
    Z: Fn(&Bytecode<B>, &Vec<F>, &Witness, usize) -> P,
>(
    h: H,
    vm: VmParams,
    verify: V,
    begin: G,
    sumcheck: R,
    prove: Z,
    bytecode: Bytecode<B>,
    rate: usize,
    layers: Seq<Seq<(Vec<F>, P)>>,
    k: int,
)
    requires
        is_compression(h),
        k >= 2,
        is_chunk_tree(
            unified_parent(h, vm, verify, begin, sumcheck, prove, bytecode, rate),
            layers,
            k,
        ),
        layers[0].len() > 0,
        layers.last().len() == 1,
    ensures
        leading_digest(fseq(layers.last()[0].0@)) == tree_digest(h, leading_digests(layers[0]), k),
{
    let node = unified_parent(h, vm, verify, begin, sumcheck, prove, bytecode, rate);
    assert forall|s: Seq<(Vec<F>, P)>, c: (Vec<F>, P)| #[trigger] node(s, c) implies chains_children(
        h,
        s,
        c,
    ) by {
        assert(unified_recursion_result(h, vm, verify, begin, sumcheck, prove, bytecode, rate, s, (c.1, c.0)));
        lemma_chain_digest(h, leading_digests(s));
        assert(fseq(c.0@).take(8) =~= chain(h, leading_digests(s)));
    }
    lemma_tree_of_chains(h, node, layers, k);
}

/// The public input of a proof of the hybrid recursion starts with the chain of the hashes
/// that those of its children start with, be they proofs of the hybrid circuit itself or
/// of the inner circuit.
pub proof fn lemma_hybrid_parent_digest<
    H: Fn(Digest, Digest) -> Digest,
    B,
    P,
    S,
    V: Fn(&Bytecode<B>, &Vec<F>, &P) -> Result<Verified, String>,
    G: Fn(&Vec<Evaluation>) -> (S, EF),
    R: Fn(S, &Bytecode<B>, &Vec<Evaluation>, &Vec<EF>, EF) -> Reduction,
    Z: Fn(&Bytecode<B>, &Vec<F>, &Witness, usize) -> P,
>(
    h: H,
    vm: VmParams,
    verify: V,
    begin: G,
    sumcheck: R,
    prove: Z,
    hybrid: Bytecode<B>,
    inner: Bytecode<B>,
    rate: usize,
    of_self: bool,
    children: Seq<(Vec<F>, P)>,
    c: (Vec<F>, P),
)
    requires
        is_compression(h),
        hybrid_parent(h, vm, verify, begin, sumcheck, prove, hybrid, inner, rate, of_self)(children, c),
    ensures
        leading_digest(fseq(c.0@)) == chain(h, leading_digests(children)),
{
    let none = Seq::<(Vec<F>, P)>::empty();
    let first = if of_self {
        children
    } else {
        none
    };
    let second = if of_self {
        none
    } else {
        children
    };
    let s = choose|s: HybridStep<P>|
        is_hybrid_step(
            vm,
            verify,
            begin,
            sumcheck,
            hybrid,
            inner,
            first,
            second,
            s,
        ) && #[trigger] hybrid_recursion_proved(h, vm, prove, hybrid, inner, s, rate, (c.1, c.0));
    assert(leading_digests(first) + leading_digests(second) =~= leading_digests(children));
    lemma_chain_digest(h, leading_digests(children));
    assert(fseq(c.0@).take(8) =~= chain(h, leading_digests(children)));
}

/// The proof that is left of a deep recursion with the hybrid circuit has a public input
/// that starts with the hash at the root of the tree whose first layer chains those of the
/// given proofs of the inner circuit.
pub proof fn lemma_deep_hybrid_digest<
    H: Fn(Digest, Digest) -> Digest,
    B,
    P,
    S,
    V: Fn(&Bytecode<B>, &Vec<F>, &P) -> Result<Verified, String>,
    G: Fn(&Vec<Evaluation>) -> (S, EF),
    R: Fn(S, &Bytecode<B>, &Vec<Evaluation>, &Vec<EF>, EF) -> Reduction,
    Z: Fn(&Bytecode<B>, &Vec<F>, &Witness, usize) -> P,
>(
    h: H,
    vm: VmParams,
    verify: V,
    begin: G,
    sumcheck: R,
    prove: Z,
    hybrid: Bytecode<B>,
    inner: Bytecode<B>,
    rate: usize,
    inner_proofs: Seq<(Vec<F>, P)>,
    layers: Seq<Seq<(Vec<F>, P)>>,
    k: int,
)
    requires
        is_compression(h),
        k >= 2,
        is_chunk_tree(
            hybrid_parent(h, vm, verify, begin, sumcheck, prove, hybrid, inner, rate, true),
            layers,
            k,
        ),
        is_chunk_layer(
            hybrid_parent(h, vm, verify, begin, sumcheck, prove, hybrid, inner, rate, false),
            inner_proofs,
            k,
            layers[0],
        ),
        inner_proofs.len() > 0,
        layers.last().len() == 1,
    ensures
        leading_digest(fseq(layers.last()[0].0@)) == tree_digest(
            h,
            digest_layer(h, leading_digests(inner_proofs), k),
            k,
        ),
        inner_proofs.len() > 1 ==> leading_digest(fseq(layers.last()[0].0@)) == tree_digest(
            h,
            leading_digests(inner_proofs),
            k,
        ),
{
    let upper = hybrid_parent(h, vm, verify, begin, sumcheck, prove, hybrid, inner, rate, true);
    let lower = hybrid_parent(h, vm, verify, begin, sumcheck, prove, hybrid, inner, rate, false);
    assert forall|s: Seq<(Vec<F>, P)>, c: (Vec<F>, P)| #[trigger] upper(s, c) implies chains_children(
        h,
        s,
        c,
    ) by {
        lemma_hybrid_parent_digest(h, vm, verify, begin, sumcheck, prove, hybrid, inner, rate, true, s, c);
    }
    assert forall|s: Seq<(Vec<F>, P)>, c: (Vec<F>, P)| #[trigger] lower(s, c) implies chains_children(
        h,
        s,
        c,
    ) by {
        lemma_hybrid_parent_digest(h, vm, verify, begin, sumcheck, prove, hybrid, inner, rate, false, s, c);
    }
    lemma_chunk_total(inner_proofs.len() as int, k);
    lemma_layer_digests(h, lower, inner_proofs, k, layers[0]);
    lemma_tree_of_chains(h, upper, layers, k);
}

} // verus!
