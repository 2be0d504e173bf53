//! Aggregation of proofs.
//!
//! Proofs of batches are joined in a tree until one is left. In reference mode the tree
//! is binary and nodes carry no proof; with the unified circuit each node is a proof
//! that verifies its children.

use crate::batch::{
    batch_proof_cloned, clone_proof, copy_input, proof_cloned, same_input, BatchProof,
};
use crate::circuit::{
    airs_ok, circuit_params, compile_unified_das_circuit, das_replacements, input_fits,
    unified_compiles, unified_for_own_size, unified_outcome, CircuitKind, CompileError,
    MAX_INNER_PROOFS,
};
use crate::claims::Reduction;
use crate::commitment::digests;
use crate::ext::{fseq, EF};
use crate::field::F;
use crate::hash::is_compression;
use crate::inputs::{chain, chain_digests, hash_commitments, lemma_chain_digest, roots};
use crate::machine::{rates_ok, MachineParams, WhirSummary};
use crate::recursion::{
    acceptable, leading_digest, leading_digests, prove_unified_recursion, read_leading_digest,
    recursion_ready, unified_recursion_result,
};
use crate::slices::{
    chunk, chunk_count, chunk_end, copy_range, copy_slice, flat, lemma_chunk_bounds,
    lemma_chunk_total, lemma_flat_flat_chunks, lemma_flat_singles, lemma_flat_take,
};
use crate::text::Replacements;
use crate::tree::{is_chunk_layer, is_chunk_tree, is_level, lemma_chunk_tree_push};
use crate::types::{digest_eq, digest_view, Commitment, Digest};
use crate::vm::{sizes_fit, Bytecode, Evaluation, Verified, VmParams, Witness};
use vstd::prelude::*;

verus! {

/// An aggregated proof: covers all commitments in its subtree.
#[derive(Debug)]
pub struct AggregatedProof<P> {
    /// All commitments covered by this proof.
    pub commitments: Vec<Commitment>,
    /// The proof; none in reference mode.
    pub proof: Option<P>,
    /// The batch proofs at the leaves of the subtree.
    pub batch_proofs: Vec<BatchProof<P>>,
    /// The public input of the proof; none in reference mode.
    pub public_input: Option<Vec<F>>,
}

/// Every element of `b` is what cloning the element of `a` may give.
pub open spec fn batch_proofs_cloned<P: Clone>(
    a: Seq<BatchProof<P>>,
    b: Seq<BatchProof<P>>,
) -> bool {
    &&& a.len() == b.len()
    &&& forall|i: int| 0 <= i < a.len() ==> batch_proof_cloned(a[i], #[trigger] b[i])
}

/// Append clones of batch proofs.
fn push_batch_proofs<P: Clone>(out: &mut Vec<BatchProof<P>>, proofs: &Vec<BatchProof<P>>)
    ensures
        final(out)@.len() == old(out)@.len() + proofs@.len(),
        final(out)@.take(old(out)@.len() as int) == old(out)@,
        batch_proofs_cloned(proofs@, final(out)@.skip(old(out)@.len() as int)),
{
    let ghost start = out@;
    let mut i: usize = 0;
    while i < proofs.len()
        invariant
            i <= proofs@.len(),
            out@.len() == start.len() + i,
            out@.take(start.len() as int) == start,
            forall|k: int|
                0 <= k < i ==> batch_proof_cloned(proofs@[k], #[trigger] out@[start.len() + k]),
        decreases proofs@.len() - i,
    {
        let ghost before = out@;
        out.push(proofs[i].clone());
        i = i + 1;
        assert(out@.take(start.len() as int) =~= before.take(start.len() as int));
    }
    let ghost tail = out@.skip(start.len() as int);
    assert forall|k: int| 0 <= k < proofs@.len() implies batch_proof_cloned(
        proofs@[k],
        #[trigger] tail[k],
    ) by {
        assert(tail[k] == out@[start.len() + k]);
    }
}

impl<P: Clone> Clone for AggregatedProof<P> {
    fn clone(&self) -> (r: Self)
        ensures
            r.commitments@ == self.commitments@,
            proof_cloned(self.proof, r.proof),
            batch_proofs_cloned(self.batch_proofs@, r.batch_proofs@),
            same_input(self.public_input, r.public_input),
    {
        let mut batch_proofs: Vec<BatchProof<P>> = Vec::new();
        push_batch_proofs(&mut batch_proofs, &self.batch_proofs);
        assert(batch_proofs@.skip(0) =~= batch_proofs@);
        AggregatedProof {
            commitments: copy_slice(self.commitments.as_slice()),
            proof: clone_proof(&self.proof),
            batch_proofs,
            public_input: copy_input(&self.public_input),
        }
    }
}

/// `r` is the leaf of the aggregation tree for a batch proof.
pub open spec fn is_leaf<P: Clone>(bp: BatchProof<P>, r: AggregatedProof<P>) -> bool {
    &&& r.commitments@ == bp.commitments@
    &&& proof_cloned(bp.proof, r.proof)
    &&& r.batch_proofs@ == seq![bp]
    &&& same_input(bp.public_input, r.public_input)
}

/// The conversion clones the proof, so that its result is not determined by its argument
/// alone; the contract of `from` says how the two relate.
impl<P: Clone> vstd::std_specs::convert::FromSpecImpl<BatchProof<P>> for AggregatedProof<P> {
    open spec fn obeys_from_spec() -> bool {
        false
    }

    open spec fn from_spec(bp: BatchProof<P>) -> Self {
        choose|r: AggregatedProof<P>| is_leaf(bp, r)
    }
}

impl<P: Clone> From<BatchProof<P>> for AggregatedProof<P> {
    fn from(bp: BatchProof<P>) -> (r: Self)
        ensures
            is_leaf(bp, r),
    {
        let commitments = copy_slice(bp.commitments.as_slice());
        let proof = clone_proof(&bp.proof);
        let public_input = copy_input(&bp.public_input);
        let batch_proofs = vec![bp];
        assert(batch_proofs@ =~= seq![bp]);
        AggregatedProof { commitments, proof, batch_proofs, public_input }
    }
}

/// All commitments of some proofs, in order.
pub open spec fn all_commitments<P>(s: Seq<AggregatedProof<P>>) -> Seq<Commitment> {
    flat(Seq::new(s.len(), |i: int| s[i].commitments@))
}

/// All batch proofs of some proofs, in order.
pub open spec fn all_batch_proofs<P>(s: Seq<AggregatedProof<P>>) -> Seq<BatchProof<P>> {
    flat(Seq::new(s.len(), |i: int| s[i].batch_proofs@))
}

/// `r` joins two proofs and carries none of its own.
pub open spec fn is_join<P>(
    left: AggregatedProof<P>,
    right: AggregatedProof<P>,
    r: AggregatedProof<P>,
) -> bool {
    &&& r.commitments@ == left.commitments@ + right.commitments@
    &&& r.batch_proofs@ == left.batch_proofs@ + right.batch_proofs@
    &&& r.proof is None
    &&& r.public_input is None
}

/// Join two proofs.
fn join<P>(left: AggregatedProof<P>, right: AggregatedProof<P>) -> (r: AggregatedProof<P>)
    ensures
        is_join(left, right, r),
{
    let mut commitments = left.commitments;
    let mut more_commitments = right.commitments;
    commitments.append(&mut more_commitments);
    let mut batch_proofs = left.batch_proofs;
    let mut more_proofs = right.batch_proofs;
    batch_proofs.append(&mut more_proofs);
    AggregatedProof { commitments, proof: None, batch_proofs, public_input: None }
}

/// Aggregate two proofs into one in reference mode.
pub fn aggregate_pair<P: Clone>(left: &AggregatedProof<P>, right: &AggregatedProof<P>) -> (r:
    AggregatedProof<P>)
    ensures
        r.commitments@ == left.commitments@ + right.commitments@,
        batch_proofs_cloned(left.batch_proofs@ + right.batch_proofs@, r.batch_proofs@),
        r.proof is None,
        r.public_input is None,
{
    join(left.clone(), right.clone())
}

/// The next layer of the binary tree: neighbours are joined, and an odd one out is
/// carried forward.
pub open spec fn is_next_layer<P>(
    layer: Seq<AggregatedProof<P>>,
    next: Seq<AggregatedProof<P>>,
) -> bool {
    &&& next.len() == (layer.len() + 1) / 2
    &&& forall|i: int|
        0 <= i < next.len() ==> if 2 * i + 1 < layer.len() {
            is_join(layer[2 * i], layer[2 * i + 1], #[trigger] next[i])
        } else {
            next[i] == layer[2 * i]
        }
}

/// Build the next layer of the binary tree.
fn join_layer<P>(layer: Vec<AggregatedProof<P>>) -> (next: Vec<AggregatedProof<P>>)
    ensures
        is_next_layer(layer@, next@),
{
    let ghost all = layer@;
    let mut rest = layer;
    let mut next: Vec<AggregatedProof<P>> = Vec::new();
    assert(rest@ =~= all.skip(0));
    while rest.len() > 0
        invariant
            2 * next@.len() <= all.len() || (2 * next@.len() == all.len() + 1),
            rest@ == (if 2 * next@.len() <= all.len() {
                all.skip(2 * next@.len() as int)
            } else {
                Seq::empty()
            }),
            forall|i: int|
                0 <= i < next@.len() ==> if 2 * i + 1 < all.len() {
                    is_join(all[2 * i], all[2 * i + 1], #[trigger] next@[i])
                } else {
                    next@[i] == all[2 * i]
                },
        decreases rest@.len(),
    {
        let left = rest.remove(0);
        if rest.len() > 0 {
            let right = rest.remove(0);
            next.push(join(left, right));
        } else {
            next.push(left);
        }
        proof {
            if 2 * next@.len() <= all.len() {
                assert(rest@ =~= all.skip(2 * next@.len() as int));
            } else {
                assert(rest@ =~= Seq::empty());
            }
        }
    }
    next
}

/// The items of a layer in pairs are the items of the next.
proof fn lemma_flat_pairs<T>(a: Seq<Seq<T>>, b: Seq<Seq<T>>)
    requires
        b.len() == (a.len() + 1) / 2,
        forall|i: int|
            0 <= i < b.len() ==> #[trigger] b[i] == (if 2 * i + 1 < a.len() {
                a[2 * i] + a[2 * i + 1]
            } else {
                a[2 * i]
            }),
    ensures
        flat(a) == flat(b),
    decreases b.len(),
{
    if b.len() > 0 {
        let k = b.len() - 1;
        let (c, d) = (a.take(2 * k), b.drop_last());
        lemma_flat_pairs(c, d);
        lemma_flat_take(a, 2 * k);
        if 2 * k + 1 < a.len() {
            lemma_flat_take(a, 2 * k + 1);
            assert(a.take(2 * k + 2) =~= a);
            assert(flat(c) + a[2 * k] + a[2 * k + 1] =~= flat(c) + (a[2 * k] + a[2 * k + 1]));
        } else {
            assert(a.take(2 * k + 1) =~= a);
        }
    }
}

/// A layer covers what the one below covers.
pub proof fn lemma_next_layer_covers<P>(
    layer: Seq<AggregatedProof<P>>,
    next: Seq<AggregatedProof<P>>,
)
    requires
        is_next_layer(layer, next),
    ensures
        all_commitments(next) == all_commitments(layer),
        all_batch_proofs(next) == all_batch_proofs(layer),
{
    let f = |s: Seq<AggregatedProof<P>>| Seq::new(s.len(), |i: int| s[i].commitments@);
    let g = |s: Seq<AggregatedProof<P>>| Seq::new(s.len(), |i: int| s[i].batch_proofs@);
    assert forall|i: int| 0 <= i < next.len() implies #[trigger] f(next)[i] == (if 2 * i + 1
        < f(layer).len() {
        f(layer)[2 * i] + f(layer)[2 * i + 1]
    } else {
        f(layer)[2 * i]
    }) by {
        let n = next[i];
    }
    assert forall|i: int| 0 <= i < next.len() implies #[trigger] g(next)[i] == (if 2 * i + 1
        < g(layer).len() {
        g(layer)[2 * i] + g(layer)[2 * i + 1]
    } else {
        g(layer)[2 * i]
    }) by {
        let n = next[i];
    }
    lemma_flat_pairs(f(layer), f(next));
    lemma_flat_pairs(g(layer), g(next));
}

/// Aggregate proofs into one with a binary tree, in reference mode. A single proof is
/// returned as it is.
pub fn aggregate_proofs<P>(proofs: Vec<AggregatedProof<P>>) -> (r: AggregatedProof<P>)
    requires
        proofs@.len() > 0,
    ensures
        r.commitments@ == all_commitments(proofs@),
        r.batch_proofs@ == all_batch_proofs(proofs@),
        proofs@.len() == 1 ==> r == proofs@[0],
        proofs@.len() > 1 ==> r.proof is None && r.public_input is None,
{
    let ghost all = proofs@;
    let mut layer = proofs;
    while layer.len() > 1
        invariant
            layer@.len() > 0,
            all_commitments(layer@) == all_commitments(all),
            all_batch_proofs(layer@) == all_batch_proofs(all),
            layer@ == all || (all.len() > 1 && layer@[0].proof is None
                && layer@[0].public_input is None),
        decreases layer@.len(),
    {
        let next = join_layer(layer);
        proof {
            lemma_next_layer_covers(layer@, next@);
            assert(is_join(layer@[0], layer@[1], next@[0]));
        }
        layer = next;
    }
    proof {
        assert(layer@ =~= seq![layer@[0]]);
        lemma_single_covers(layer@[0]);
    }
    layer.remove(0)
}

/// Context for aggregation with the unified circuit.
#[derive(Debug)]
pub struct UnifiedAggregationContext<B> {
    /// The unified program.
    pub bytecode: Bytecode<B>,
    /// Base-two logarithm of the inverse rate of proofs.
    pub log_inv_rate: usize,
}

impl<B> UnifiedAggregationContext<B> {
    /// Compile the unified circuit.
    pub fn new<
        C: Fn(CircuitKind, Replacements) -> Bytecode<B>,
        W: Fn(usize, usize) -> WhirSummary,
        S: Fn(usize) -> usize,
    >(
        vm: &VmParams,
        m: &MachineParams,
        compile: &C,
        whir: &W,
        min_stacked: &S,
        batch_size: usize,
        codeword_len: usize,
        evals_per_leaf: usize,
        degree: usize,
        log_inv_rate: usize,
        attempts: usize,
    ) -> (r: Result<Self, CompileError>)
        requires
            circuit_params(codeword_len as int, evals_per_leaf as int, degree as int),
            input_fits(*vm),
            airs_ok(*m),
            rates_ok(*m),
            unified_compiles(
                *vm,
                *m,
                *compile,
                *whir,
                *min_stacked,
                das_replacements(
                    *vm,
                    batch_size as int,
                    codeword_len as int,
                    evals_per_leaf as int,
                    degree as int,
                ),
                attempts as int,
            ),
        ensures
            r is Ok ==> r->Ok_0.log_inv_rate == log_inv_rate && unified_for_own_size(
                *vm,
                *m,
                *compile,
                *whir,
                *min_stacked,
                das_replacements(
                    *vm,
                    batch_size as int,
                    codeword_len as int,
                    evals_per_leaf as int,
                    degree as int,
                ),
                r->Ok_0.bytecode,
            ),
            unified_outcome(
                *vm,
                *m,
                *compile,
                *whir,
                *min_stacked,
                das_replacements(
                    *vm,
                    batch_size as int,
                    codeword_len as int,
                    evals_per_leaf as int,
                    degree as int,
                ),
                attempts as int,
                match r {
                    Ok(context) => Ok(context.bytecode),
                    Err(e) => Err(e),
                },
            ),
    {
        match compile_unified_das_circuit(
            vm,
            m,
            compile,
            whir,
            min_stacked,
            batch_size,
            codeword_len,
            evals_per_leaf,
            degree,
            attempts,
        ) {
            Ok(bytecode) => Ok(UnifiedAggregationContext { bytecode, log_inv_rate }),
            Err(e) => Err(e),
        }
    }
}

/// `c` holds a copy of a public input and a clone of its proof.
pub open spec fn is_copy<P: Clone>(proof: P, public_input: Vec<F>, c: (Vec<F>, P)) -> bool {
    c.0@ == public_input@ && cloned(proof, c.1)
}

/// The proofs that one step of the unified recursion takes from its children.
pub open spec fn taken_from<P: Clone>(
    children: Seq<AggregatedProof<P>>,
    inner: Seq<(Vec<F>, P)>,
) -> bool {
    &&& inner.len() == children.len()
    &&& forall|i: int|
        0 <= i < children.len() ==> is_copy(
            children[i].proof->Some_0,
            children[i].public_input->Some_0,
            #[trigger] inner[i],
        )
}

/// The child has a proof and its public input.
pub open spec fn has_proof<P>(child: AggregatedProof<P>) -> bool {
    child.proof is Some && child.public_input is Some
}

/// The values behind references.
pub open spec fn behind<T>(s: Seq<&T>) -> Seq<T> {
    Seq::new(s.len(), |i: int| *s[i])
}

/// `result` is what one step of the unified recursion gives on proofs taken from the
/// children.
pub open spec fn unified_step<
    H: Fn(Digest, Digest) -> Digest,
    B,
    P: Clone,
    S,
    V: Fn(&Bytecode<B>, &Vec<F>, &P) -> Result<Verified, String>,
    G: Fn(&Vec<Evaluation>) -> (S, EF),
    R: Fn(S, &Bytecode<B>, &Vec<Evaluation>, &Vec<EF>, EF) -> Reduction,
    Z: Fn(&Bytecode<B>, &Vec<F>, &Witness, usize) -> P,
>(
    h: H,
    vm: VmParams,
    verify: V,
    begin: G,
    sumcheck: R,
    prove: Z,
    ctx: UnifiedAggregationContext<B>,
    children: Seq<AggregatedProof<P>>,
    result: (P, Vec<F>),
) -> bool {
    exists|inner: Seq<(Vec<F>, P)>|
        taken_from(children, inner) && #[trigger] unified_recursion_result(
            h,
            vm,
            verify,
            begin,
            sumcheck,
            prove,
            ctx.bytecode,
            ctx.log_inv_rate,
            inner,
            result,
        )
}

/// `r` aggregates its children with one step of the unified recursion.
pub open spec fn unified_aggregate<
    H: Fn(Digest, Digest) -> Digest,
    B,
    P: Clone,
    S,
    V: Fn(&Bytecode<B>, &Vec<F>, &P) -> Result<Verified, String>,
    G: Fn(&Vec<Evaluation>) -> (S, EF),
    R: Fn(S, &Bytecode<B>, &Vec<Evaluation>, &Vec<EF>, EF) -> Reduction,
    Z: Fn(&Bytecode<B>, &Vec<F>, &Witness, usize) -> P,
>(
    h: H,
    vm: VmParams,
    verify: V,
    begin: G,
    sumcheck: R,
    prove: Z,
    ctx: UnifiedAggregationContext<B>,
    children: Seq<AggregatedProof<P>>,
    r: AggregatedProof<P>,
) -> bool {
    &&& r.commitments@ == all_commitments(children)
    &&& batch_proofs_cloned(all_batch_proofs(children), r.batch_proofs@)
    &&& has_proof(r)
    &&& unified_step(
        h,
        vm,
        verify,
        begin,
        sumcheck,
        prove,
        ctx,
        children,
        (r.proof->Some_0, r.public_input->Some_0),
    )
}

/// Collect what one step of the unified recursion takes from its children.
fn collect_children<P: Clone>(children: &[&AggregatedProof<P>]) -> (r: (
    Vec<Commitment>,
    Vec<(Vec<F>, P)>,
    Vec<BatchProof<P>>,
))
    requires
        forall|i: int| 0 <= i < children@.len() ==> has_proof(*#[trigger] children@[i]),
    ensures
        r.0@ == all_commitments(behind(children@)),
        taken_from(behind(children@), r.1@),
        batch_proofs_cloned(all_batch_proofs(behind(children@)), r.2@),
{
    let ghost all = behind(children@);
    let ghost coms = Seq::new(all.len(), |i: int| all[i].commitments@);
    let ghost proofs = Seq::new(all.len(), |i: int| all[i].batch_proofs@);
    let mut commitments: Vec<Commitment> = Vec::new();
    let mut inner: Vec<(Vec<F>, P)> = Vec::new();
    let mut batch_proofs: Vec<BatchProof<P>> = Vec::new();
    let mut i: usize = 0;
    proof {
        assert(coms.take(0) =~= Seq::empty());
        assert(proofs.take(0) =~= Seq::empty());
    }
    while i < children.len()
        invariant
            i <= children@.len(),
            all == behind(children@),
            coms == Seq::new(all.len(), |i: int| all[i].commitments@),
            proofs == Seq::new(all.len(), |i: int| all[i].batch_proofs@),
            forall|k: int| 0 <= k < children@.len() ==> has_proof(*#[trigger] children@[k]),
            commitments@ == flat(coms.take(i as int)),
            batch_proofs_cloned(flat(proofs.take(i as int)), batch_proofs@),
            inner@.len() == i,
            forall|k: int|
                0 <= k < i ==> is_copy(
                    all[k].proof->Some_0,
                    all[k].public_input->Some_0,
                    #[trigger] inner@[k],
                ),
        decreases children@.len() - i,
    {
        let child = children[i];
        crate::slices::append_slice(&mut commitments, child.commitments.as_slice());
        let ghost before = batch_proofs@;
        push_batch_proofs(&mut batch_proofs, &child.batch_proofs);
        proof {
            lemma_flat_take(coms, i as int);
            lemma_flat_take(proofs, i as int);
            let (a, b) = (flat(proofs.take(i as int)), child.batch_proofs@);
            assert forall|k: int| 0 <= k < (a + b).len() implies batch_proof_cloned(
                (a + b)[k],
                #[trigger] batch_proofs@[k],
            ) by {
                if k < a.len() {
                    assert(batch_proofs@.take(before.len() as int)[k] == before[k]);
                } else {
                    assert(batch_proofs@.skip(before.len() as int)[k - a.len()]
                        == batch_proofs@[k]);
                }
            }
        }
        match (&child.public_input, &child.proof) {
            (Some(public_input), Some(p)) => {
                inner.push((copy_slice(public_input.as_slice()), p.clone()));
            },
            _ => {
                assert(has_proof(*children@[i as int]));
            },
        }
        i = i + 1;
    }
    proof {
        assert(coms.take(i as int) =~= coms);
        assert(proofs.take(i as int) =~= proofs);
        assert(taken_from(all, inner@));
    }
    (commitments, inner, batch_proofs)
}

/// Aggregate children with one step of the unified recursion.
pub fn aggregate_with_unified_recursion<
    H: Fn(Digest, Digest) -> Digest,
    B,
    P: Clone,
    S,
    V: Fn(&Bytecode<B>, &Vec<F>, &P) -> Result<Verified, String>,
    G: Fn(&Vec<Evaluation>) -> (S, EF),
    R: Fn(S, &Bytecode<B>, &Vec<Evaluation>, &Vec<EF>, EF) -> Reduction,
    Z: Fn(&Bytecode<B>, &Vec<F>, &Witness, usize) -> P,
>(
    h: &H,
    vm: &VmParams,
    verify: &V,
    begin: &G,
    sumcheck: &R,
    prove: &Z,
    children: &[&AggregatedProof<P>],
    ctx: &UnifiedAggregationContext<B>,
) -> (r: AggregatedProof<P>)
    requires
        is_compression(*h),
        sizes_fit(ctx.bytecode.log_size as int),
        forall|i: int| 0 <= i < children@.len() ==> has_proof(*#[trigger] children@[i]),
        forall|inner: Seq<(Vec<F>, P)>|
            taken_from(behind(children@), inner) ==> #[trigger] recursion_ready(
                *h,
                *vm,
                *verify,
                *begin,
                *sumcheck,
                *prove,
                ctx.bytecode,
                ctx.log_inv_rate,
                inner,
            ),
    ensures
        unified_aggregate(
            *h,
            *vm,
            *verify,
            *begin,
            *sumcheck,
            *prove,
            *ctx,
            behind(children@),
            r,
        ),
{
    let (commitments, inner, batch_proofs) = collect_children(children);
    assert(recursion_ready(
        *h,
        *vm,
        *verify,
        *begin,
        *sumcheck,
        *prove,
        ctx.bytecode,
        ctx.log_inv_rate,
        inner@,
    ));
    let result = prove_unified_recursion(
        h,
        vm,
        verify,
        begin,
        sumcheck,
        prove,
        &inner,
        &ctx.bytecode,
        ctx.log_inv_rate,
    );
    assert(unified_step(
        *h,
        *vm,
        *verify,
        *begin,
        *sumcheck,
        *prove,
        *ctx,
        behind(children@),
        result,
    ));
    let (proof, public_input) = result;
    AggregatedProof {
        commitments,
        proof: Some(proof),
        batch_proofs,
        public_input: Some(public_input),
    }
}

/// How a node of an aggregation tree relates to its children.
pub open spec fn unified_node<
    H: Fn(Digest, Digest) -> Digest,
    B,
    P: Clone,
    S,
    V: Fn(&Bytecode<B>, &Vec<F>, &P) -> Result<Verified, String>,
    G: Fn(&Vec<Evaluation>) -> (S, EF),
    R: Fn(S, &Bytecode<B>, &Vec<Evaluation>, &Vec<EF>, EF) -> Reduction,
    Z: Fn(&Bytecode<B>, &Vec<F>, &Witness, usize) -> P,
>(
    h: H,
    vm: VmParams,
    verify: V,
    begin: G,
    sumcheck: R,
    prove: Z,
    ctx: UnifiedAggregationContext<B>,
) -> spec_fn(Seq<AggregatedProof<P>>, AggregatedProof<P>) -> bool {
    |children: Seq<AggregatedProof<P>>, r: AggregatedProof<P>|
        unified_aggregate(h, vm, verify, begin, sumcheck, prove, ctx, children, r)
}

/// The child's proof can be verified by the unified circuit.
pub open spec fn child_acceptable<
    B,
    P: Clone,
    V: Fn(&Bytecode<B>, &Vec<F>, &P) -> Result<Verified, String>,
>(vm: VmParams, verify: V, bytecode: Bytecode<B>, child: AggregatedProof<P>) -> bool {
    &&& has_proof(child)
    &&& forall|c: (Vec<F>, P)| #[trigger]
        is_copy(child.proof->Some_0, child.public_input->Some_0, c) ==> acceptable(
            vm,
            verify,
            bytecode,
            c,
        )
}

/// All proofs can be verified by the unified circuit.
pub open spec fn all_acceptable<
    B,
    P,
    V: Fn(&Bytecode<B>, &Vec<F>, &P) -> Result<Verified, String>,
>(vm: VmParams, verify: V, bytecode: Bytecode<B>, inner: Seq<(Vec<F>, P)>) -> bool {
    forall|i: int| 0 <= i < inner.len() ==> acceptable(vm, verify, bytecode, #[trigger] inner[i])
}

/// What the unified recursion gives on up to `MAX_INNER_PROOFS` acceptable proofs is
/// acceptable again, and the inputs fit a machine word.
pub open spec fn keeps_acceptable<
    H: Fn(Digest, Digest) -> Digest,
    B,
    P: Clone,
    S,
    V: Fn(&Bytecode<B>, &Vec<F>, &P) -> Result<Verified, String>,
    G: Fn(&Vec<Evaluation>) -> (S, EF),
    R: Fn(S, &Bytecode<B>, &Vec<Evaluation>, &Vec<EF>, EF) -> Reduction,
    Z: Fn(&Bytecode<B>, &Vec<F>, &Witness, usize) -> P,
>(
    h: H,
    vm: VmParams,
    verify: V,
    begin: G,
    sumcheck: R,
    prove: Z,
    ctx: UnifiedAggregationContext<B>,
) -> bool {
    &&& forall|inner: Seq<(Vec<F>, P)>|
        0 < inner.len() <= MAX_INNER_PROOFS && all_acceptable(vm, verify, ctx.bytecode, inner)
            ==> #[trigger] recursion_ready(
            h,
            vm,
            verify,
            begin,
            sumcheck,
            prove,
            ctx.bytecode,
            ctx.log_inv_rate,
            inner,
        )
    &&& forall|inner: Seq<(Vec<F>, P)>, result: (P, Vec<F>), c: (Vec<F>, P)|
        all_acceptable(vm, verify, ctx.bytecode, inner) && #[trigger] unified_recursion_result(
            h,
            vm,
            verify,
            begin,
            sumcheck,
            prove,
            ctx.bytecode,
            ctx.log_inv_rate,
            inner,
            result,
        ) && #[trigger] is_copy(result.0, result.1, c) ==> acceptable(
            vm,
            verify,
            ctx.bytecode,
            c,
        )
}

/// Build the next layer of the tree.
fn unified_layer<
    H: Fn(Digest, Digest) -> Digest,
    B,
    P: Clone,
    S,
    V: Fn(&Bytecode<B>, &Vec<F>, &P) -> Result<Verified, String>,
    G: Fn(&Vec<Evaluation>) -> (S, EF),
    R: Fn(S, &Bytecode<B>, &Vec<Evaluation>, &Vec<EF>, EF) -> Reduction,
    Z: Fn(&Bytecode<B>, &Vec<F>, &Witness, usize) -> P,
>(
    h: &H,
    vm: &VmParams,
    verify: &V,
    begin: &G,
    sumcheck: &R,
    prove: &Z,
    layer: &Vec<AggregatedProof<P>>,
    ctx: &UnifiedAggregationContext<B>,
    max_per_step: usize,
) -> (next: Vec<AggregatedProof<P>>)
    requires
        is_compression(*h),
        sizes_fit(ctx.bytecode.log_size as int),
        keeps_acceptable(*h, *vm, *verify, *begin, *sumcheck, *prove, *ctx),
        max_per_step >= 1,
        max_per_step <= MAX_INNER_PROOFS || layer@.len() <= MAX_INNER_PROOFS,
        forall|i: int|
            0 <= i < layer@.len() ==> child_acceptable(
                *vm,
                *verify,
                ctx.bytecode,
                #[trigger] layer@[i],
            ),
    ensures
        is_chunk_layer(
            unified_node(*h, *vm, *verify, *begin, *sumcheck, *prove, *ctx),
            layer@,
            max_per_step as int,
            next@,
        ),
        forall|i: int|
            0 <= i < next@.len() ==> child_acceptable(
                *vm,
                *verify,
                ctx.bytecode,
                #[trigger] next@[i],
            ),
{
    let n: usize = layer.len();
    let ghost k = max_per_step as int;
    let ghost node = unified_node(*h, *vm, *verify, *begin, *sumcheck, *prove, *ctx);
    let mut next: Vec<AggregatedProof<P>> = Vec::new();
    let mut start: usize = 0;
    proof {
        lemma_chunk_total(n as int, k);
    }
    while start < n
        invariant
            is_compression(*h),
            sizes_fit(ctx.bytecode.log_size as int),
            keeps_acceptable(*h, *vm, *verify, *begin, *sumcheck, *prove, *ctx),
            max_per_step >= 1,
            max_per_step <= MAX_INNER_PROOFS || n <= MAX_INNER_PROOFS,
            n == layer@.len(),
            k == max_per_step,
            node == unified_node(*h, *vm, *verify, *begin, *sumcheck, *prove, *ctx),
            forall|i: int|
                0 <= i < layer@.len() ==> child_acceptable(
                    *vm,
                    *verify,
                    ctx.bytecode,
                    #[trigger] layer@[i],
                ),
            start == chunk_end(n as int, k, next@.len() as int),
            next@.len() <= chunk_count(n as int, k),
            start == n ==> next@.len() == chunk_count(n as int, k),
            start < n ==> next@.len() < chunk_count(n as int, k),
            forall|j: int|
                0 <= j < next@.len() ==> node(chunk(layer@, k, j), #[trigger] next@[j]),
            forall|i: int|
                0 <= i < next@.len() ==> child_acceptable(
                    *vm,
                    *verify,
                    ctx.bytecode,
                    #[trigger] next@[i],
                ),
        decreases n - start,
    {
        let ghost j = next@.len() as int;
        proof {
            lemma_chunk_bounds(n as int, k, j);
            assert((j + 1) * k == j * k + k) by (nonlinear_arith);
        }
        let end: usize = if n - start <= max_per_step {
            n
        } else {
            start + max_per_step
        };
        let mut refs: Vec<&AggregatedProof<P>> = Vec::new();
        let mut i: usize = start;
        while i < end
            invariant
                start <= i <= end <= layer@.len(),
                behind(refs@) == layer@.subrange(start as int, i as int),
            decreases end - i,
        {
            let ghost before = refs@;
            refs.push(&layer[i]);
            i = i + 1;
            assert(behind(refs@) =~= behind(before).push(layer@[i - 1]));
            assert(layer@.subrange(start as int, i as int) =~= layer@.subrange(
                start as int,
                i - 1,
            ).push(layer@[i - 1]));
        }
        let ghost part = chunk(layer@, k, j);
        proof {
            assert(behind(refs@) == part);
            assert(behind(refs@).len() == refs@.len());
            assert forall|i: int| 0 <= i < part.len() implies child_acceptable(
                *vm,
                *verify,
                ctx.bytecode,
                #[trigger] part[i],
            ) by {
                assert(part[i] == layer@[start + i]);
            }
            assert forall|i: int| 0 <= i < refs@.len() implies has_proof(
                *#[trigger] refs@[i],
            ) by {
                assert(part[i] == *refs@[i]);
            }
            assert forall|inner: Seq<(Vec<F>, P)>| taken_from(part, inner) implies
                #[trigger] recursion_ready(
                *h,
                *vm,
                *verify,
                *begin,
                *sumcheck,
                *prove,
                ctx.bytecode,
                ctx.log_inv_rate,
                inner,
            ) by {
                lemma_taken_acceptable(*vm, *verify, ctx.bytecode, part, inner);
            }
        }
        let aggregated = aggregate_with_unified_recursion(
            h,
            vm,
            verify,
            begin,
            sumcheck,
            prove,
            refs.as_slice(),
            ctx,
        );
        proof {
            lemma_aggregate_acceptable(
                *h,
                *vm,
                *verify,
                *begin,
                *sumcheck,
                *prove,
                *ctx,
                part,
                aggregated,
            );
            assert(node(part, aggregated));
        }
        next.push(aggregated);
        start = end;
    }
    next
}

/// Proofs taken from acceptable children are acceptable.
proof fn lemma_taken_acceptable<
    B,
    P: Clone,
    V: Fn(&Bytecode<B>, &Vec<F>, &P) -> Result<Verified, String>,
>(
    vm: VmParams,
    verify: V,
    bytecode: Bytecode<B>,
    children: Seq<AggregatedProof<P>>,
    inner: Seq<(Vec<F>, P)>,
)
    requires
        forall|i: int|
            0 <= i < children.len() ==> child_acceptable(
                vm,
                verify,
                bytecode,
                #[trigger] children[i],
            ),
        taken_from(children, inner),
    ensures
        all_acceptable(vm, verify, bytecode, inner),
        inner.len() == children.len(),
{
    assert forall|i: int| 0 <= i < inner.len() implies acceptable(
        vm,
        verify,
        bytecode,
        #[trigger] inner[i],
    ) by {
        assert(child_acceptable(vm, verify, bytecode, children[i]));
        assert(is_copy(children[i].proof->Some_0, children[i].public_input->Some_0, inner[i]));
    }
}

/// An aggregate of acceptable children is acceptable.
proof fn lemma_aggregate_acceptable<
    H: Fn(Digest, Digest) -> Digest,
    B,
    P: Clone,
    S,
    V: Fn(&Bytecode<B>, &Vec<F>, &P) -> Result<Verified, String>,
    G: Fn(&Vec<Evaluation>) -> (S, EF),
    R: Fn(S, &Bytecode<B>, &Vec<Evaluation>, &Vec<EF>, EF) -> Reduction,
    Z: Fn(&Bytecode<B>, &Vec<F>, &Witness, usize) -> P,
>(
    h: H,
    vm: VmParams,
    verify: V,
    begin: G,
    sumcheck: R,
    prove: Z,
    ctx: UnifiedAggregationContext<B>,
    children: Seq<AggregatedProof<P>>,
    r: AggregatedProof<P>,
)
    requires
        keeps_acceptable(h, vm, verify, begin, sumcheck, prove, ctx),
        forall|i: int|
            0 <= i < children.len() ==> child_acceptable(
                vm,
                verify,
                ctx.bytecode,
                #[trigger] children[i],
            ),
        unified_aggregate(h, vm, verify, begin, sumcheck, prove, ctx, children, r),
    ensures
        child_acceptable(vm, verify, ctx.bytecode, r),
{
    let result = (r.proof->Some_0, r.public_input->Some_0);
    let inner = choose|inner: Seq<(Vec<F>, P)>|
        taken_from(children, inner) && #[trigger] unified_recursion_result(
            h,
            vm,
            verify,
            begin,
            sumcheck,
            prove,
            ctx.bytecode,
            ctx.log_inv_rate,
            inner,
            result,
        );
    lemma_taken_acceptable(vm, verify, ctx.bytecode, children, inner);
    assert forall|c: (Vec<F>, P)| #[trigger]
        is_copy(r.proof->Some_0, r.public_input->Some_0, c) implies acceptable(
        vm,
        verify,
        ctx.bytecode,
        c,
    ) by {
        assert(is_copy(result.0, result.1, c));
    }
}

/// Aggregate proofs into one with the unified circuit, up to `max_per_step` at a time. A
/// single proof is returned as it is.
pub fn aggregate_proofs_unified<
    H: Fn(Digest, Digest) -> Digest,
    B,
    P: Clone,
    S,
    V: Fn(&Bytecode<B>, &Vec<F>, &P) -> Result<Verified, String>,
    G: Fn(&Vec<Evaluation>) -> (S, EF),
    R: Fn(S, &Bytecode<B>, &Vec<Evaluation>, &Vec<EF>, EF) -> Reduction,
    Z: Fn(&Bytecode<B>, &Vec<F>, &Witness, usize) -> P,
>(
    h: &H,
    vm: &VmParams,
    verify: &V,
    begin: &G,
    sumcheck: &R,
    prove: &Z,
    proofs: Vec<AggregatedProof<P>>,
    ctx: &UnifiedAggregationContext<B>,
    max_per_step: usize,
) -> (r: AggregatedProof<P>)
    requires
        proofs@.len() > 0,
        max_per_step >= 2,
        proofs@.len() == 1 || {
            &&& is_compression(*h)
            &&& sizes_fit(ctx.bytecode.log_size as int)
            &&& keeps_acceptable(*h, *vm, *verify, *begin, *sumcheck, *prove, *ctx)
            &&& max_per_step <= MAX_INNER_PROOFS || proofs@.len() <= MAX_INNER_PROOFS
            &&& forall|i: int|
                0 <= i < proofs@.len() ==> child_acceptable(
                    *vm,
                    *verify,
                    ctx.bytecode,
                    #[trigger] proofs@[i],
                )
        },
    ensures
        exists|layers: Seq<Seq<AggregatedProof<P>>>| #[trigger]
            is_chunk_tree(
                unified_node(*h, *vm, *verify, *begin, *sumcheck, *prove, *ctx),
                layers,
                max_per_step as int,
            ) && layers[0] == proofs@ && layers.last() == seq![r],
        r.commitments@ == all_commitments(proofs@),
        covered(r.batch_proofs@) == covered(all_batch_proofs(proofs@)),
        proofs@.len() == 1 ==> r == proofs@[0],
{
    let ghost node = unified_node(*h, *vm, *verify, *begin, *sumcheck, *prove, *ctx);
    let ghost k = max_per_step as int;
    let ghost all = proofs@;
    let ghost mut layers = seq![proofs@];
    let mut layer = proofs;
    while layer.len() > 1
        invariant
            max_per_step >= 2,
            k == max_per_step,
            node == unified_node(*h, *vm, *verify, *begin, *sumcheck, *prove, *ctx),
            0 < layer@.len() <= all.len(),
            layers.len() > 0,
            layers[0] == all,
            layers.last() == layer@,
            is_chunk_tree(node, layers, k),
            all.len() == 1 ==> layer@ == all,
            all.len() == 1 || {
                &&& is_compression(*h)
                &&& sizes_fit(ctx.bytecode.log_size as int)
                &&& keeps_acceptable(*h, *vm, *verify, *begin, *sumcheck, *prove, *ctx)
                &&& max_per_step <= MAX_INNER_PROOFS || all.len() <= MAX_INNER_PROOFS
                &&& forall|i: int|
                    0 <= i < layer@.len() ==> child_acceptable(
                        *vm,
                        *verify,
                        ctx.bytecode,
                        #[trigger] layer@[i],
                    )
            },
        decreases layer@.len(),
    {
        let next = unified_layer(
            h,
            vm,
            verify,
            begin,
            sumcheck,
            prove,
            &layer,
            ctx,
            max_per_step,
        );
        proof {
            lemma_chunk_total(layer@.len() as int, k);
            lemma_chunk_tree_push(node, layers, k, next@);
            layers = layers.push(next@);
        }
        layer = next;
    }
    proof {
        assert(layer@ =~= seq![layer@[0]]);
        lemma_chunk_tree_covers(*h, *vm, *verify, *begin, *sumcheck, *prove, *ctx, layers, k);
        lemma_single_covers(layer@[0]);
    }
    layer.remove(0)
}

/// The commitments that batch proofs cover, one sequence for each.
pub open spec fn covered<P>(s: Seq<BatchProof<P>>) -> Seq<Seq<Commitment>> {
    Seq::new(s.len(), |i: int| s[i].commitments@)
}

/// What lists of batch proofs cover, listed and then concatenated or the other way round.
proof fn lemma_covered_flat<P>(s: Seq<Seq<BatchProof<P>>>)
    ensures
        covered(flat(s)) == flat(Seq::new(s.len(), |i: int| covered(s[i]))),
    decreases s.len(),
{
    let a = Seq::new(s.len(), |i: int| covered(s[i]));
    if s.len() > 0 {
        let t = s.drop_last();
        lemma_covered_flat(t);
        assert(a.drop_last() =~= Seq::new(t.len(), |i: int| covered(t[i])));
        assert(covered(flat(t) + s.last()) =~= covered(flat(t)) + covered(s.last()));
    } else {
        assert(covered(flat(s)) =~= flat(a));
    }
}

/// One proof covers what it covers.
proof fn lemma_single_covers<P>(r: AggregatedProof<P>)
    ensures
        all_commitments(seq![r]) == r.commitments@,
        all_batch_proofs(seq![r]) == r.batch_proofs@,
{
    let s = seq![r];
    let c = Seq::new(s.len(), |i: int| s[i].commitments@);
    let b = Seq::new(s.len(), |i: int| s[i].batch_proofs@);
    reveal_with_fuel(flat, 2);
    assert(flat(c) =~= c[0]);
    assert(flat(b) =~= b[0]);
}

/// Every layer of the unified tree covers the commitments of the leaves, in order, and so
/// do its batch proofs.
pub proof fn lemma_chunk_tree_covers<
    H: Fn(Digest, Digest) -> Digest,
    B,
    P: Clone,
    S,
    V: Fn(&Bytecode<B>, &Vec<F>, &P) -> Result<Verified, String>,
    G: Fn(&Vec<Evaluation>) -> (S, EF),
    R: Fn(S, &Bytecode<B>, &Vec<Evaluation>, &Vec<EF>, EF) -> Reduction,
    Z: Fn(&Bytecode<B>, &Vec<F>, &Witness, usize) -> P,
>(
    h: H,
    vm: VmParams,
    verify: V,
    begin: G,
    sumcheck: R,
    prove: Z,
    ctx: UnifiedAggregationContext<B>,
    layers: Seq<Seq<AggregatedProof<P>>>,
    k: int,
)
    requires
        k >= 1,
        is_chunk_tree(
            unified_node(h, vm, verify, begin, sumcheck, prove, ctx),
            layers,
            k,
        ),
    ensures
        all_commitments(layers.last()) == all_commitments(layers[0]),
        covered(all_batch_proofs(layers.last())) == covered(all_batch_proofs(layers[0])),
    decreases layers.len(),
{
    if layers.len() > 1 {
        let l = layers.len() - 1;
        let below = layers.drop_last();
        let node = unified_node(h, vm, verify, begin, sumcheck, prove, ctx);
        assert forall|i: int| 0 < i < below.len() implies is_level(
            node,
            below[i - 1],
            k,
            #[trigger] below[i],
        ) by {
            assert(below[i] == layers[i]);
        }
        lemma_chunk_tree_covers(h, vm, verify, begin, sumcheck, prove, ctx, below, k);
        let (layer, next) = (layers[l - 1], layers[l]);
        let n = layer.len() as int;
        let a = Seq::new(layer.len(), |i: int| layer[i].commitments@);
        let b = Seq::new(next.len(), |i: int| next[i].commitments@);
        lemma_flat_flat_chunks(a, k);
        assert forall|j: int| 0 <= j < next.len() implies #[trigger] b[j] == flat(
            chunk(a, k, j),
        ) by {
            assert(node(chunk(layer, k, j), next[j]));
            let part = chunk(layer, k, j);
            lemma_chunk_bounds(n, k, j);
            assert(chunk(a, k, j) =~= Seq::new(part.len(), |i: int| part[i].commitments@));
        }
        assert(b =~= Seq::new(chunk_count(n, k) as nat, |j: int| flat(chunk(a, k, j))));
        let p = Seq::new(layer.len(), |i: int| layer[i].batch_proofs@);
        let q = Seq::new(next.len(), |i: int| next[i].batch_proofs@);
        let c = Seq::new(p.len(), |i: int| covered(p[i]));
        let d = Seq::new(q.len(), |i: int| covered(q[i]));
        lemma_covered_flat(p);
        lemma_covered_flat(q);
        lemma_flat_flat_chunks(c, k);
        assert forall|j: int| 0 <= j < next.len() implies #[trigger] d[j] == flat(
            chunk(c, k, j),
        ) by {
            assert(node(chunk(layer, k, j), next[j]));
            let part = chunk(layer, k, j);
            lemma_chunk_bounds(n, k, j);
            let pp = Seq::new(part.len(), |i: int| part[i].batch_proofs@);
            assert(all_batch_proofs(part) == flat(pp));
            assert(d[j] =~= covered(flat(pp)));
            lemma_covered_flat(pp);
            assert(chunk(c, k, j) =~= Seq::new(pp.len(), |i: int| covered(pp[i])));
        }
        assert(d =~= Seq::new(chunk_count(n, k) as nat, |j: int| flat(chunk(c, k, j))));
    }
}

// What the public input of an aggregate says of its batches.

/// The hashes that the public inputs of the unified circuit start with for single batches.
pub open spec fn batch_digests<H: Fn(Digest, Digest) -> Digest, P>(
    h: H,
    proofs: Seq<BatchProof<P>>,
) -> Seq<Seq<int>> {
    Seq::new(
        proofs.len(),
        |i: int| chain(h, seq![chain(h, roots(proofs[i].commitments@))]),
    )
}

/// The hashes of the next layer of a tree in which each node chains the hashes of up to
/// `k` children.
pub open spec fn digest_layer<H: Fn(Digest, Digest) -> Digest>(
    h: H,
    layer: Seq<Seq<int>>,
    k: int,
) -> Seq<Seq<int>> {
    Seq::new(chunk_count(layer.len() as int, k) as nat, |j: int| chain(h, chunk(layer, k, j)))
}

/// The hash at the root of a tree with up to `k` children per node; that of a single leaf
/// is the leaf's.
pub open spec fn tree_digest<H: Fn(Digest, Digest) -> Digest>(
    h: H,
    leaves: Seq<Seq<int>>,
    k: int,
) -> Seq<int>
    decreases leaves.len(),
{
    if leaves.len() <= 1 || k < 2 {
        leaves[0]
    } else {
        proof {
            lemma_chunk_total(leaves.len() as int, k);
        }
        tree_digest(h, digest_layer(h, leaves, k), k)
    }
}

/// Compute the hashes of the next layer.
fn next_digests<H: Fn(Digest, Digest) -> Digest>(h: &H, layer: &Vec<Digest>, k: usize) -> (r: Vec<
    Digest,
>)
    requires
        is_compression(*h),
        k > 0,
    ensures
        digests(r@) == digest_layer(*h, digests(layer@), k as int),
{
    let n: usize = layer.len();
    let ghost v = digests(layer@);
    let mut next: Vec<Digest> = Vec::new();
    let mut start: usize = 0;
    proof {
        lemma_chunk_total(n as int, k as int);
    }
    while start < n
        invariant
            is_compression(*h),
            k > 0,
            n == layer@.len(),
            v == digests(layer@),
            start == chunk_end(n as int, k as int, next@.len() as int),
            next@.len() <= chunk_count(n as int, k as int),
            start == n ==> next@.len() == chunk_count(n as int, k as int),
            start < n ==> next@.len() < chunk_count(n as int, k as int),
            forall|j: int|
                0 <= j < next@.len() ==> digest_view(#[trigger] next@[j]) == chain(
                    *h,
                    chunk(v, k as int, j),
                ),
        decreases n - start,
    {
        let ghost j = next@.len() as int;
        proof {
            lemma_chunk_bounds(n as int, k as int, j);
            assert((j + 1) * k == j * k + k) by (nonlinear_arith);
        }
        let end: usize = if n - start <= k {
            n
        } else {
            start + k
        };
        let part = copy_range(layer.as_slice(), start, end);
        assert(digests(part@) =~= chunk(v, k as int, j));
        next.push(chain_digests(h, part.as_slice()));
        start = end;
    }
    assert(digests(next@) =~= digest_layer(*h, v, k as int));
    next
}

/// Compute the hash at the root of a tree.
fn fold_digests<H: Fn(Digest, Digest) -> Digest>(h: &H, leaves: &Vec<Digest>, k: usize) -> (r:
    Digest)
    requires
        is_compression(*h),
        leaves@.len() > 0,
        k >= 2,
    ensures
        digest_view(r) == tree_digest(*h, digests(leaves@), k as int),
{
    let mut layer: Vec<Digest> = copy_slice(leaves.as_slice());
    while layer.len() > 1
        invariant
            is_compression(*h),
            k >= 2,
            layer@.len() > 0,
            tree_digest(*h, digests(layer@), k as int) == tree_digest(
                *h,
                digests(leaves@),
                k as int,
            ),
        decreases layer@.len(),
    {
        let next = next_digests(h, &layer, k);
        proof {
            lemma_chunk_total(layer@.len() as int, k as int);
            assert(digests(next@).len() == next@.len());
        }
        layer = next;
    }
    layer[0]
}

/// The public input is one that aggregating the batches level by level gives, up to some
/// number at a time: it starts with the hash at the root of such a tree.
pub open spec fn tied_to_batches<H: Fn(Digest, Digest) -> Digest, P>(
    h: H,
    proofs: Seq<BatchProof<P>>,
    public_input: Seq<int>,
) -> bool {
    &&& proofs.len() > 0
    &&& public_input.len() >= 8
    &&& exists|k: int|
        2 <= k <= MAX_INNER_PROOFS && #[trigger] tree_digest(h, batch_digests(h, proofs), k)
            == leading_digest(public_input)
}

/// Whether a public input is one that aggregating the batches level by level gives. Whoever
/// holds the batches of an aggregate can so tie its recursive proof to them.
pub fn is_tied_to_batches<H: Fn(Digest, Digest) -> Digest, P>(
    h: &H,
    proofs: &Vec<BatchProof<P>>,
    public_input: &Vec<F>,
) -> (r: bool)
    requires
        is_compression(*h),
    ensures
        r == tied_to_batches(*h, proofs@, fseq(public_input@)),
{
    assert(fseq(public_input@).len() == public_input@.len());
    if proofs.len() == 0 || public_input.len() < 8 {
        return false;
    }
    let ghost want = batch_digests(*h, proofs@);
    let mut leaves: Vec<Digest> = Vec::with_capacity(proofs.len());
    let mut i: usize = 0;
    while i < proofs.len()
        invariant
            is_compression(*h),
            i <= proofs@.len(),
            want == batch_digests(*h, proofs@),
            leaves@.len() == i,
            forall|j: int| 0 <= j < i ==> digest_view(#[trigger] leaves@[j]) == want[j],
        decreases proofs@.len() - i,
    {
        let hash = hash_commitments(h, proofs[i].commitments.as_slice());
        let hashes: Vec<Digest> = vec![hash];
        assert(digests(hashes@) =~= seq![chain(*h, roots(proofs@[i as int].commitments@))]);
        leaves.push(chain_digests(h, hashes.as_slice()));
        i = i + 1;
    }
    assert(digests(leaves@) =~= want);
    let leading = read_leading_digest(public_input);
    let mut k: usize = 2;
    while k <= MAX_INNER_PROOFS
        invariant
            is_compression(*h),
            2 <= k <= MAX_INNER_PROOFS + 1,
            leaves@.len() > 0,
            proofs@.len() > 0,
            public_input@.len() >= 8,
            fseq(public_input@).len() == public_input@.len(),
            want == batch_digests(*h, proofs@),
            digests(leaves@) == want,
            digest_view(leading) == leading_digest(fseq(public_input@)),
            forall|j: int|
                2 <= j < k ==> #[trigger] tree_digest(*h, want, j) != leading_digest(
                    fseq(public_input@),
                ),
        decreases MAX_INNER_PROOFS + 1 - k,
    {
        let root = fold_digests(h, &leaves, k);
        if digest_eq(&root, &leading) {
            assert(tree_digest(*h, want, k as int) == leading_digest(fseq(public_input@)));
            return true;
        }
        k = k + 1;
    }
    false
}

/// The hash that the public input of an aggregated proof starts with.
pub open spec fn aggregate_digest<P>(r: AggregatedProof<P>) -> Seq<int> {
    leading_digest(fseq(r.public_input->Some_0@))
}

/// The hashes that the public inputs of aggregated proofs start with.
pub open spec fn aggregate_digests<P>(layer: Seq<AggregatedProof<P>>) -> Seq<Seq<int>> {
    Seq::new(layer.len(), |i: int| aggregate_digest(layer[i]))
}

/// The public input of an aggregate starts with the chain over the hashes that those of
/// its children start with.
pub proof fn lemma_aggregate_digest<
    H: Fn(Digest, Digest) -> Digest,
    B,
    P: Clone,
    S,
    V: Fn(&Bytecode<B>, &Vec<F>, &P) -> Result<Verified, String>,
    G: Fn(&Vec<Evaluation>) -> (S, EF),
    R: Fn(S, &Bytecode<B>, &Vec<Evaluation>, &Vec<EF>, EF) -> Reduction,
    Z: Fn(&Bytecode<B>, &Vec<F>, &Witness, usize) -> P,
>(
    h: H,
    vm: VmParams,
    verify: V,
    begin: G,
    sumcheck: R,
    prove: Z,
    ctx: UnifiedAggregationContext<B>,
    children: Seq<AggregatedProof<P>>,
    r: AggregatedProof<P>,
)
    requires
        is_compression(h),
        unified_aggregate(h, vm, verify, begin, sumcheck, prove, ctx, children, r),
    ensures
        aggregate_digest(r) == chain(h, aggregate_digests(children)),
{
    let result = (r.proof->Some_0, r.public_input->Some_0);
    let inner = choose|inner: Seq<(Vec<F>, P)>|
        taken_from(children, inner) && #[trigger] unified_recursion_result(
            h,
            vm,
            verify,
            begin,
            sumcheck,
            prove,
            ctx.bytecode,
            ctx.log_inv_rate,
            inner,
            result,
        );
    assert(leading_digests(inner) =~= aggregate_digests(children)) by {
        assert forall|i: int| 0 <= i < inner.len() implies #[trigger] leading_digests(inner)[i]
            == aggregate_digests(children)[i] by {
            assert(is_copy(
                children[i].proof->Some_0,
                children[i].public_input->Some_0,
                inner[i],
            ));
        }
    }
    let hash = chain(h, leading_digests(inner));
    lemma_chain_digest(h, leading_digests(inner));
    assert(fseq(result.1@).take(8) =~= hash);
}

/// The public input of an aggregate starts with the hash at the root of the tree over the
/// hashes that those of its leaves start with.
pub proof fn lemma_root_digest<
    H: Fn(Digest, Digest) -> Digest,
    B,
    P: Clone,
    S,
    V: Fn(&Bytecode<B>, &Vec<F>, &P) -> Result<Verified, String>,
    G: Fn(&Vec<Evaluation>) -> (S, EF),
    R: Fn(S, &Bytecode<B>, &Vec<Evaluation>, &Vec<EF>, EF) -> Reduction,
    Z: Fn(&Bytecode<B>, &Vec<F>, &Witness, usize) -> P,
>(
    h: H,
    vm: VmParams,
    verify: V,
    begin: G,
    sumcheck: R,
    prove: Z,
    ctx: UnifiedAggregationContext<B>,
    layers: Seq<Seq<AggregatedProof<P>>>,
    k: int,
)
    requires
        is_compression(h),
        k >= 2,
        is_chunk_tree(
            unified_node(h, vm, verify, begin, sumcheck, prove, ctx),
            layers,
            k,
        ),
        layers[0].len() > 0,
        layers.last().len() == 1,
    ensures
        aggregate_digest(layers.last()[0]) == tree_digest(h, aggregate_digests(layers[0]), k),
    decreases layers.len(),
{
    let node = unified_node(h, vm, verify, begin, sumcheck, prove, ctx);
    let leaves = aggregate_digests(layers[0]);
    if layers.len() == 1 {
        assert(leaves[0] == aggregate_digest(layers[0][0]));
    } else {
        let above = layers.skip(1);
        assert forall|l: int| 0 < l < above.len() implies is_level(
            node,
            above[l - 1],
            k,
            #[trigger] above[l],
        ) by {
            assert(above[l] == layers[l + 1]);
            assert(above[l - 1] == layers[l]);
        }
        let (layer, next) = (layers[0], layers[1]);
        let n = layer.len() as int;
        assert(is_level(node, layer, k, next));
        lemma_chunk_total(n, k);
        assert(aggregate_digests(next) =~= digest_layer(h, leaves, k)) by {
            assert forall|j: int| 0 <= j < next.len() implies #[trigger] aggregate_digests(next)[j]
                == chain(h, chunk(leaves, k, j)) by {
                let part = chunk(layer, k, j);
                assert(node(part, next[j]));
                lemma_chunk_bounds(n, k, j);
                lemma_aggregate_digest(
                    h,
                    vm,
                    verify,
                    begin,
                    sumcheck,
                    prove,
                    ctx,
                    part,
                    next[j],
                );
                assert(aggregate_digests(part) =~= chunk(leaves, k, j));
            }
        }
        lemma_root_digest(h, vm, verify, begin, sumcheck, prove, ctx, above, k);
    }
}

/// For leaves that one node takes, the number of children per node makes no difference.
proof fn lemma_one_node_digest<H: Fn(Digest, Digest) -> Digest>(
    h: H,
    leaves: Seq<Seq<int>>,
    a: int,
    b: int,
)
    requires
        leaves.len() <= a,
        leaves.len() <= b,
        2 <= a,
        2 <= b,
    ensures
        tree_digest(h, leaves, a) == tree_digest(h, leaves, b),
{
    let n = leaves.len() as int;
    if n > 1 {
        assert(chunk_count(n, a) == 1) by (nonlinear_arith)
            requires
                chunk_count(n, a) == (n + a - 1) / a,
                1 < n <= a,
        ;
        assert(chunk_count(n, b) == 1) by (nonlinear_arith)
            requires
                chunk_count(n, b) == (n + b - 1) / b,
                1 < n <= b,
        ;
        lemma_chunk_bounds(n, a, 0);
        lemma_chunk_bounds(n, b, 0);
        assert(chunk(leaves, a, 0) =~= leaves);
        assert(chunk(leaves, b, 0) =~= leaves);
        assert(digest_layer(h, leaves, a) =~= digest_layer(h, leaves, b));
        reveal_with_fuel(tree_digest, 2);
    }
}

/// An aggregated proof of one batch, with a public input that starts with its hash.
pub open spec fn is_batch_leaf<H: Fn(Digest, Digest) -> Digest, P>(
    h: H,
    r: AggregatedProof<P>,
) -> bool {
    &&& has_proof(r)
    &&& r.batch_proofs@.len() == 1
    &&& r.public_input->Some_0@.len() >= 8
    &&& aggregate_digest(r) == batch_digests(h, r.batch_proofs@)[0]
}

/// What aggregating proofs of single batches with the unified circuit gives is tied to the
/// batches.
pub proof fn lemma_aggregate_tied<
    H: Fn(Digest, Digest) -> Digest,
    B,
    P: Clone,
    S,
    V: Fn(&Bytecode<B>, &Vec<F>, &P) -> Result<Verified, String>,
    G: Fn(&Vec<Evaluation>) -> (S, EF),
    R: Fn(S, &Bytecode<B>, &Vec<Evaluation>, &Vec<EF>, EF) -> Reduction,
    Z: Fn(&Bytecode<B>, &Vec<F>, &Witness, usize) -> P,
>(
    h: H,
    vm: VmParams,
    verify: V,
    begin: G,
    sumcheck: R,
    prove: Z,
    ctx: UnifiedAggregationContext<B>,
    layers: Seq<Seq<AggregatedProof<P>>>,
    k: int,
    r: AggregatedProof<P>,
)
    requires
        is_compression(h),
        k >= 2,
        k <= MAX_INNER_PROOFS || layers[0].len() <= MAX_INNER_PROOFS,
        is_chunk_tree(
            unified_node(h, vm, verify, begin, sumcheck, prove, ctx),
            layers,
            k,
        ),
        layers[0].len() > 0,
        layers.last() == seq![r],
        forall|i: int| 0 <= i < layers[0].len() ==> is_batch_leaf(h, #[trigger] layers[0][i]),
    ensures
        has_proof(r),
        tied_to_batches(h, r.batch_proofs@, fseq(r.public_input->Some_0@)),
{
    let leaves = layers[0];
    let node = unified_node(h, vm, verify, begin, sumcheck, prove, ctx);
    lemma_root_digest(h, vm, verify, begin, sumcheck, prove, ctx, layers, k);
    lemma_chunk_tree_covers(h, vm, verify, begin, sumcheck, prove, ctx, layers, k);
    lemma_single_covers(r);
    let lists = Seq::new(leaves.len(), |i: int| leaves[i].batch_proofs@);
    let firsts = Seq::new(leaves.len(), |i: int| leaves[i].batch_proofs@[0]);
    assert forall|i: int| 0 <= i < leaves.len() implies #[trigger] lists[i] =~= seq![firsts[i]] by {
        assert(is_batch_leaf(h, leaves[i]));
    }
    assert(lists =~= Seq::new(firsts.len(), |i: int| seq![firsts[i]]));
    lemma_flat_singles(firsts);
    let (all, root) = (all_batch_proofs(leaves), r.batch_proofs@);
    assert(all == firsts);
    assert(covered(root).len() == covered(all).len());
    assert(batch_digests(h, root) =~= aggregate_digests(leaves)) by {
        assert forall|i: int| 0 <= i < root.len() implies #[trigger] batch_digests(h, root)[i]
            == aggregate_digests(leaves)[i] by {
            assert(covered(root)[i] == covered(all)[i]);
            assert(is_batch_leaf(h, leaves[i]));
        }
    }
    if layers.len() == 1 {
        assert(leaves[0] == r);
        assert(is_batch_leaf(h, leaves[0]));
    } else {
        let l = layers.len() - 1;
        assert(is_level(node, layers[l - 1], k, layers[l]));
        let part = chunk(layers[l - 1], k, 0);
        assert(node(part, layers[l][0]));
        lemma_aggregate_digest(h, vm, verify, begin, sumcheck, prove, ctx, part, r);
        lemma_aggregate_input_len(h, vm, verify, begin, sumcheck, prove, ctx, part, r);
    }
    let used = if k <= MAX_INNER_PROOFS {
        k
    } else {
        MAX_INNER_PROOFS as int
    };
    if k > MAX_INNER_PROOFS {
        lemma_one_node_digest(h, batch_digests(h, root), k, used);
    }
    assert(tree_digest(h, batch_digests(h, root), used) == aggregate_digest(r));
}

/// The public input of an aggregate holds a hash.
proof fn lemma_aggregate_input_len<
    H: Fn(Digest, Digest) -> Digest,
    B,
    P: Clone,
    S,
    V: Fn(&Bytecode<B>, &Vec<F>, &P) -> Result<Verified, String>,
    G: Fn(&Vec<Evaluation>) -> (S, EF),
    R: Fn(S, &Bytecode<B>, &Vec<Evaluation>, &Vec<EF>, EF) -> Reduction,
    Z: Fn(&Bytecode<B>, &Vec<F>, &Witness, usize) -> P,
>(
    h: H,
    vm: VmParams,
    verify: V,
    begin: G,
    sumcheck: R,
    prove: Z,
    ctx: UnifiedAggregationContext<B>,
    children: Seq<AggregatedProof<P>>,
    r: AggregatedProof<P>,
)
    requires
        is_compression(h),
        unified_aggregate(h, vm, verify, begin, sumcheck, prove, ctx, children, r),
    ensures
        fseq(r.public_input->Some_0@).len() >= 8,
{
    let result = (r.proof->Some_0, r.public_input->Some_0);
    let inner = choose|inner: Seq<(Vec<F>, P)>|
        taken_from(children, inner) && #[trigger] unified_recursion_result(
            h,
            vm,
            verify,
            begin,
            sumcheck,
            prove,
            ctx.bytecode,
            ctx.log_inv_rate,
            inner,
            result,
        );
    lemma_chain_digest(h, leading_digests(inner));
}

} // verus!
