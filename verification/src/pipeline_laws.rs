//! What a proof over codewords holds of each of them, and how an outcome is reported.

use crate::batch::{batch_proved, BatchProof};
use crate::commitment::codeword_root;
use crate::das_laws::lemma_batches_partition;
use crate::ext::fseq;
use crate::field::F;
use crate::hash::compress;
use crate::inputs::{chain, roots};
use crate::layout_laws::{is_uniform, lemma_batch_regions_layout};
use crate::pipeline::{das_inputs, is_das_proof, DasConfig, DasProof};
use crate::proving::reports;
use crate::slices::{chunk_end, lemma_chunk_bounds, lemma_chunk_total};
use crate::types::{digest_view, Batch, Codeword, Digest};
use crate::vm::{Bytecode, Verified, VmParams, Witness};
use crate::witness::batch_regions;
use vstd::prelude::*;

verus! {

/// A proof over codewords holds of codeword `p` the root of its own tree, at place `p`, and
/// again in batch `p` over the batch size at place `p` modulo the batch size. Batches have
/// the configured size, or that of all codewords where there are fewer.
pub proof fn lemma_das_proof_of_codeword<H: Fn(Digest, Digest) -> Digest, P: Clone>(
    h: H,
    config: DasConfig,
    codewords: Seq<Codeword>,
    r: DasProof<P>,
    p: int,
)
    requires
        das_inputs(config, codewords),
        is_das_proof(h, config, codewords, r),
        0 <= p < codewords.len(),
    ensures
        ({
            let k = r.batch_size as int;
            let proofs = r.aggregated_proof.batch_proofs@;
            let (j, i) = (p / k, p % k);
            &&& 0 < k <= config.batch_size
            &&& k <= codewords.len()
            &&& k == config.batch_size || k == codewords.len()
            &&& r.commitments@.len() == codewords.len()
            &&& r.commitments@[p]@ == codeword_root(h, codewords[p]@, r.evals_per_leaf as int)
            &&& 0 <= j < proofs.len()
            &&& 0 <= i < proofs[j].commitments@.len()
            &&& proofs[j].commitments@[i] == r.commitments@[p]
            &&& r.aggregated_proof.commitments@[p] == r.commitments@[p]
            &&& r.aggregated_proof.commitments@.len() == codewords.len()
            &&& proofs.len() == 1 <==> codewords.len() <= config.batch_size
        }),
{
    let k = r.batch_size as int;
    let m = codewords.len() as int;
    let (j, i) = (p / k, p % k);
    let proofs = r.aggregated_proof.batch_proofs@;
    lemma_batches_partition(h, config, codewords, r);
    lemma_chunk_total(m, k);
    vstd::arithmetic::div_mod::lemma_fundamental_div_mod(p, k);
    assert(k * j == j * k) by (nonlinear_arith);
    assert((j + 1) * k == j * k + k) by (nonlinear_arith);
    assert(j >= 0) by (nonlinear_arith)
        requires
            j == p / k,
            p >= 0,
            k > 0,
    ;
    assert(j * k >= 0) by (nonlinear_arith)
        requires
            j >= 0,
            k > 0,
    ;
    assert(j < proofs.len()) by (nonlinear_arith)
        requires
            proofs.len() == (m + k - 1) / k,
            j * k <= p < m,
            k > 0,
    ;
    lemma_chunk_bounds(m, k, j);
    assert(i < chunk_end(m, k, j + 1) - j * k);
    assert(proofs[j].commitments@[i] == r.commitments@[j * k + i]);
    assert(proofs.len() == 1 <==> m <= k) by (nonlinear_arith)
        requires
            proofs.len() == (m + k - 1) / k,
            m > 0,
            k > 0,
    ;
}

/// The leaf size of a proof is the configured one. Where none is configured it is sixteen
/// for codewords of up to 128 evaluations and 64 for longer ones. The other numbers of a
/// proof are those that it was made for.
pub proof fn lemma_das_proof_numbers<H: Fn(Digest, Digest) -> Digest, P: Clone>(
    h: H,
    config: DasConfig,
    codewords: Seq<Codeword>,
    r: DasProof<P>,
)
    requires
        is_das_proof(h, config, codewords, r),
    ensures
        r.codeword_length == codewords[0]@.len(),
        r.degree == config.degree,
        config.evals_per_leaf is Some ==> config.evals_per_leaf == Some(r.evals_per_leaf),
        config.evals_per_leaf is None && r.codeword_length <= 128 ==> r.evals_per_leaf == 16,
        config.evals_per_leaf is None && r.codeword_length > 128 ==> r.evals_per_leaf == 64,
{
}

/// The proof over a single batch is that of the batch, with its public input; a proof over
/// more than one batch that is not made by recursion is only the proofs of the batches.
pub proof fn lemma_single_batch_is_the_proof<H: Fn(Digest, Digest) -> Digest, P: Clone>(
    h: H,
    config: DasConfig,
    codewords: Seq<Codeword>,
    r: DasProof<P>,
)
    requires
        das_inputs(config, codewords),
        is_das_proof(h, config, codewords, r),
    ensures
        ({
            let agg = r.aggregated_proof;
            let first = agg.batch_proofs@[0];
            let single = codewords.len() <= config.batch_size;
            &&& agg.proof is Some <==> single && first.proof is Some
            &&& agg.public_input is Some <==> single && first.public_input is Some
            &&& agg.proof is Some ==> cloned(first.proof->0, agg.proof->0)
            &&& agg.public_input is Some ==> agg.public_input->0@ == first.public_input->0@
            &&& single ==> first.commitments@ == r.commitments@
        }),
{
    lemma_das_proof_of_codeword(h, config, codewords, r, 0);
    lemma_chunk_total(codewords.len() as int, r.batch_size as int);
    let agg = r.aggregated_proof;
    if codewords.len() <= config.batch_size {
        assert(agg.batch_proofs@[0].commitments@ =~= r.commitments@);
    }
}

/// A verification is reported as it came out, and the report of a failure ends with the
/// machine's reason.
pub proof fn lemma_report_gives_reason(outcome: Result<Verified, String>, r: Result<(), String>)
    requires
        reports(outcome, r),
    ensures
        r is Ok <==> outcome is Ok,
        r is Err ==> r->Err_0@.len() == 27 + outcome->Err_0@.len(),
        r is Err ==> r->Err_0@.skip(27) == outcome->Err_0@,
        r is Err ==> r->Err_0@.take(27) == "proof verification failed: "@,
{
    reveal_strlit("proof verification failed: ");
    if r is Err {
        assert(r->Err_0@.skip(27) =~= outcome->Err_0@);
        assert(r->Err_0@.take(27) =~= "proof verification failed: "@);
    }
}

/// The proof of a batch is made for the chain of its roots and the program's hash, from a
/// witness that holds the roots, the codewords and the codewords again by positions, and no
/// authentication paths, at an inverse rate of two.
pub proof fn lemma_batch_proof_is_of_the_batch<
    H: Fn(Digest, Digest) -> Digest,
    B,
    P,
    Z: Fn(&Bytecode<B>, &Vec<F>, &Witness, usize) -> P,
>(
    h: H,
    vm: VmParams,
    prove: Z,
    bytecode: Bytecode<B>,
    batch: Batch,
    bp: BatchProof<P>,
    b: int,
    n: int,
    i: int,
    j: int,
    k: int,
) -> (w: Witness)
    requires
        batch_proved(h, vm, prove, bytecode, batch, bp),
        is_uniform(batch, b, n),
        0 <= i < b,
        0 <= j < n,
        0 <= k < 8,
    ensures
        bp.commitments@ == batch.commitments@,
        bp.proof is Some && bp.public_input is Some,
        fseq(bp.public_input->Some_0@) == chain(h, roots(batch.commitments@)) + compress(
            h,
            digest_view(bytecode.hash),
            digest_view(vm.domain_sep),
        ),
        call_ensures(
            prove,
            (&bytecode, &bp.public_input->Some_0, &w, 1usize),
            bp.proof->Some_0,
        ),
        w.merkle_paths@.len() == 0,
        w.private_input@.len() == 8 * b + b * n + n * b,
        fseq(w.private_input@)[8 * i + k] == batch.commitments@[i].root@[k]@,
        fseq(w.private_input@)[8 * b + (i * n + j)] == batch.codewords@[i].evals@[j]@,
        fseq(w.private_input@)[8 * b + b * n + (j * b + i)] == batch.codewords@[i].evals@[j]@,
{
    let w = choose|w: Witness|
        fseq(w.private_input@) == batch_regions(batch) && w.merkle_paths@.len() == 0
            && #[trigger] call_ensures(
            prove,
            (&bytecode, &bp.public_input->Some_0, &w, 1usize),
            bp.proof->Some_0,
        );
    lemma_batch_regions_layout(batch, b, n, i, j, k);
    assert(fseq(w.private_input@).len() == w.private_input@.len());
    w
}

} // verus!
