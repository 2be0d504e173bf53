//! Laws that relate proving and verification.

use crate::aggregation::{
    covered, taken_from, unified_aggregate, AggregatedProof, UnifiedAggregationContext,
};
use crate::batch::{batch_proved, BatchProof};
use crate::circuit::CircuitKind;
use crate::claims::{is_reduction, Reduction};
use crate::commitment::{
    codeword_root, commit_params, committed_pairs, hashed_pairs, is_opening, leaf_digests,
    leaf_values, lemma_commit_params, lemma_fseq_canonical, lemma_opening_binding,
    lemma_opening_sound, lemma_opening_verifies, MerkleTree,
};
use crate::code::in_code;
use crate::ext::{embed_seq, ewf, fseq, Ext, EF};
use crate::field::F;
use crate::fold::{all_equal, folded, lemma_codeword_folds_to_constant, plan_params};
use crate::fri::{lemma_codeword_accepted, rs_check};
use crate::hash::{is_compression, leaf_len, lemma_compress, pairs_collide};
use crate::inputs::{batch_public_input, lemma_chain_digest, roots};
use crate::numeric::{log2, next_pow2};
use crate::pipeline::{
    batches_checked, batches_proved, das_inputs, is_batch, is_das_proof, proves_batch,
    used_batch_size, DasConfig, DasProof,
};
use crate::proving::{proved, reports};
use crate::recursion::{
    acceptable, all_paths, hybrid_ready, hybrid_recursion_proved, hybrid_recursion_result,
    is_hybrid_step, lemma_hybrid_result_shape, lemma_unified_result_shape, paired_claims,
    proved_with_paths, recursion_private_input, recursion_ready, self_acceptable, step_parts,
    unified_parts, unified_recursion_proved, unified_recursion_result, vec_views, verified_by,
    HybridStep,
};
use crate::rlc::{lemma_rlc_in_code, rlc, same_length};
use crate::slices::{
    chunk, chunk_count, flat, lemma_chunk_total, lemma_flat_chunks, lemma_flat_index,
};
use crate::text::Replacements;
use crate::types::{digest_view, Batch, Codeword, Commitment, Digest, Opening};
use crate::verification::{
    any_proof, batches_verdict, checkable, covered_by, covers, das_openings_checkable,
    das_openings_verdict, das_verdict, first_rejected, is_covered, is_recursive, lists_all,
    opening_verifies, proof_checked, unified_verdict, verdict, verifier_bytecode, VerifyResult,
};
use crate::vm::{point_n_vars, Bytecode, Evaluation, Verified, VmParams, Witness};
use crate::witness::batch_regions;
use vstd::prelude::*;

verus! {

/// The opening of some position of a codeword, from the codeword's tree.
pub open spec fn honest_opening<H: Fn(Digest, Digest) -> Digest>(
    h: H,
    evals: Seq<int>,
    epl: int,
    o: Opening,
) -> bool {
    exists|tree: MerkleTree, position: int|
        0 <= position < evals.len() && tree.is_tree(h, leaf_digests(h, evals, epl))
            && #[trigger] is_opening(o, evals, tree@, position, epl)
}

/// Every opening is of one of the codewords.
pub open spec fn honest_openings<H: Fn(Digest, Digest) -> Digest>(
    h: H,
    codewords: Seq<Codeword>,
    epl: int,
    openings: Seq<(usize, Opening)>,
) -> bool {
    forall|i: int|
        0 <= i < openings.len() ==> (#[trigger] openings[i]).0 < codewords.len()
            && honest_opening(h, codewords[openings[i].0 as int]@, epl, openings[i].1)
}

/// An honest opening can be checked, and verifies.
proof fn lemma_honest_verifies<H: Fn(Digest, Digest) -> Digest, P: Clone>(
    h: H,
    config: DasConfig,
    codewords: Seq<Codeword>,
    das_proof: DasProof<P>,
    o: (usize, Opening),
)
    requires
        das_inputs(config, codewords),
        same_length(codewords, codewords[0]@.len() as int),
        is_das_proof(h, config, codewords, das_proof),
        o.0 < codewords.len(),
        honest_opening(h, codewords[o.0 as int]@, das_proof.evals_per_leaf as int, o.1),
    ensures
        checkable(
            das_proof.commitments@,
            das_proof.codeword_length as int,
            das_proof.evals_per_leaf as int,
            o,
        ),
        opening_verifies(
            h,
            das_proof.commitments@,
            das_proof.codeword_length as int,
            das_proof.evals_per_leaf as int,
            o,
        ),
        0 < das_proof.evals_per_leaf <= das_proof.codeword_length,
{
    let evals = codewords[o.0 as int]@;
    let epl = das_proof.evals_per_leaf as int;
    let n = das_proof.codeword_length as int;
    let (tree, position) = choose|tree: MerkleTree, position: int|
        0 <= position < evals.len() && tree.is_tree(h, leaf_digests(h, evals, epl))
            && #[trigger] is_opening(o.1, evals, tree@, position, epl);
    assert(evals.len() == n);
    assert(commit_params(evals.len() as int, epl));
    assert(das_proof.commitments@[o.0 as int]@ == codeword_root(h, evals, epl));
    lemma_commit_params(n, epl);
    lemma_opening_verifies(h, evals, epl, tree, position, o.1);
    assert(epl <= n) by (nonlinear_arith)
        requires
            n == epl * (n / epl),
            n / epl >= 1,
            epl > 0,
    ;
    let i = position / epl;
    vstd::arithmetic::div_mod::lemma_fundamental_div_mod(position, epl);
    let (q, rem) = (n / epl, position % epl);
    assert(0 <= i < q) by (nonlinear_arith)
        requires
            position == epl * i + rem,
            0 <= rem < epl,
            n == epl * q,
            0 <= position < n,
    ;
    crate::commitment::lemma_leaf_bound(n, epl, i);
    assert(fseq(o.1.values@).len() == o.1.values@.len());
}

/// Honest openings of codewords of equal length can be checked against their commitments,
/// and are accepted.
pub proof fn lemma_honest_openings_accepted<H: Fn(Digest, Digest) -> Digest, P: Clone>(
    h: H,
    config: DasConfig,
    codewords: Seq<Codeword>,
    das_proof: DasProof<P>,
    openings: Seq<(usize, Opening)>,
)
    requires
        das_inputs(config, codewords),
        same_length(codewords, codewords[0]@.len() as int),
        is_das_proof(h, config, codewords, das_proof),
        honest_openings(h, codewords, das_proof.evals_per_leaf as int, openings),
    ensures
        das_openings_checkable(h, das_proof, openings),
        forall|r: VerifyResult| #[trigger]
            das_openings_verdict(h, das_proof, openings, r) ==> r is Accept,
{
    let coms = das_proof.commitments@;
    let n = das_proof.codeword_length as int;
    let epl = das_proof.evals_per_leaf as int;
    assert forall|i: int| 0 <= i < openings.len() implies checkable(
        coms,
        n,
        epl,
        #[trigger] openings[i],
    ) && opening_verifies(h, coms, n, epl, openings[i]) && 0 < epl <= n by {
        lemma_honest_verifies(h, config, codewords, das_proof, openings[i]);
    }
    if openings.len() > 0 {
        let o = openings[0];
        assert(checkable(coms, n, epl, o));
    }
}

/// What the pipeline gives covers the commitments.
proof fn lemma_run_covers<H: Fn(Digest, Digest) -> Digest, P: Clone>(
    h: H,
    config: DasConfig,
    codewords: Seq<Codeword>,
    das_proof: DasProof<P>,
)
    requires
        das_inputs(config, codewords),
        is_das_proof(h, config, codewords, das_proof),
    ensures
        covers(das_proof.aggregated_proof.batch_proofs@, das_proof.commitments@),
{
    lemma_batches_partition(h, config, codewords, das_proof);
    lemma_listing_covers(das_proof.aggregated_proof.batch_proofs@, das_proof.commitments@);
}

/// Batches whose commitments one after the other hold every commitment cover them.
proof fn lemma_listing_covers<P>(proofs: Seq<BatchProof<P>>, commitments: Seq<Commitment>)
    requires
        forall|i: int|
            0 <= i < commitments.len() ==> flat(covered(proofs)).contains(
                #[trigger] commitments[i],
            ),
    ensures
        covers(proofs, commitments),
{
    let all = flat(covered(proofs));
    assert forall|i: int| 0 <= i < commitments.len() implies is_covered(
        proofs,
        (#[trigger] commitments[i])@,
    ) by {
        let k = all.index_of(commitments[i]);
        let (j, t) = lemma_flat_index(covered(proofs), k);
        assert(roots(proofs[j].commitments@)[t] == commitments[i]@);
        assert(covered_by(proofs, j, commitments[i]@));
    }
}

/// An accepted proof covers every commitment: each is among those of one of its batches,
/// and where that batch has a proof, the proof verifies.
pub proof fn lemma_accepted_covers<
    H: Fn(Digest, Digest) -> Digest,
    B,
    P,
    C: Fn(CircuitKind, Replacements) -> Bytecode<B>,
    V: Fn(&Bytecode<B>, &Vec<F>, &P) -> Result<Verified, String>,
>(
    h: H,
    vm: VmParams,
    compile: C,
    verify: V,
    das_proof: DasProof<P>,
    openings: Seq<(usize, Opening)>,
    given: Option<Bytecode<B>>,
    r: VerifyResult,
)
    requires
        das_verdict(h, vm, compile, verify, das_proof, openings, given, r),
        r is Accept,
    ensures
        covers(das_proof.aggregated_proof.batch_proofs@, das_proof.commitments@),
        any_proof(das_proof.aggregated_proof.batch_proofs@) ==> exists|bytecode: Bytecode<B>|
            verifier_bytecode(vm, compile, das_proof, given, bytecode) && #[trigger] first_rejected(
                h,
                vm,
                verify,
                bytecode,
                das_proof.aggregated_proof.batch_proofs@,
                None,
            ),
{
    let proofs = das_proof.aggregated_proof.batch_proofs@;
    if any_proof(proofs) {
        let bytecode = choose|bytecode: Bytecode<B>|
            verifier_bytecode(vm, compile, das_proof, given, bytecode)
                && #[trigger] verdict(
                h,
                vm,
                verify,
                bytecode,
                das_proof,
                openings,
                r,
            );
        assert(first_rejected(h, vm, verify, bytecode, proofs, None));
    }
}

/// In reference mode no batch has a proof.
proof fn lemma_reference_has_no_proof<P>(
    commitments: Seq<Commitment>,
    k: int,
    das_proof: DasProof<P>,
)
    requires
        batches_checked(commitments, k, das_proof.aggregated_proof.batch_proofs@),
    ensures
        !any_proof(das_proof.aggregated_proof.batch_proofs@),
{
}

/// What the pipeline gives in reference mode for codewords of equal length is accepted,
/// with any honest openings of the codewords.
pub proof fn lemma_reference_run_accepted<
    H: Fn(Digest, Digest) -> Digest,
    B,
    P: Clone,
    C: Fn(CircuitKind, Replacements) -> Bytecode<B>,
    V: Fn(&Bytecode<B>, &Vec<F>, &P) -> Result<Verified, String>,
>(
    h: H,
    vm: VmParams,
    compile: C,
    verify: V,
    config: DasConfig,
    codewords: Seq<Codeword>,
    das_proof: DasProof<P>,
    openings: Seq<(usize, Opening)>,
    given: Option<Bytecode<B>>,
    r: VerifyResult,
)
    requires
        !config.zkvm_mode,
        das_inputs(config, codewords),
        same_length(codewords, codewords[0]@.len() as int),
        is_das_proof(h, config, codewords, das_proof),
        batches_checked(
            das_proof.commitments@,
            das_proof.batch_size as int,
            das_proof.aggregated_proof.batch_proofs@,
        ),
        honest_openings(h, codewords, das_proof.evals_per_leaf as int, openings),
        das_verdict(h, vm, compile, verify, das_proof, openings, given, r),
    ensures
        r is Accept,
{
    lemma_reference_has_no_proof(
        das_proof.commitments@,
        das_proof.batch_size as int,
        das_proof,
    );
    lemma_run_covers(h, config, codewords, das_proof);
    lemma_honest_openings_accepted(h, config, codewords, das_proof, openings);
}

/// The virtual machine is complete: a proof verifies against the public input that it was
/// made for.
pub open spec fn complete<
    B,
    P,
    Z: Fn(&Bytecode<B>, &Vec<F>, &Witness, usize) -> P,
    V: Fn(&Bytecode<B>, &Vec<F>, &P) -> Result<Verified, String>,
>(prove: Z, verify: V, bytecode: Bytecode<B>) -> bool {
    forall|
        pi: Vec<F>,
        w: Witness,
        rate: usize,
        p: P,
        same: Vec<F>,
        outcome: Result<Verified, String>,
    |
        #[trigger] call_ensures(prove, (&bytecode, &pi, &w, rate), p) && fseq(same@) == fseq(pi@)
            && #[trigger] call_ensures(verify, (&bytecode, &same, &p), outcome)
            ==> outcome is Ok
}

/// A proof of a batch in a complete virtual machine verifies, given the batch or its
/// commitments alone: the public input that it is made for holds two digests and is the one
/// that a verifier builds from the commitments.
pub proof fn lemma_batch_proof_verifies<
    H: Fn(Digest, Digest) -> Digest,
    B,
    P,
    Z: Fn(&Bytecode<B>, &Vec<F>, &Witness, usize) -> P,
    V: Fn(&Bytecode<B>, &Vec<F>, &P) -> Result<Verified, String>,
>(
    h: H,
    vm: VmParams,
    prove: Z,
    verify: V,
    bytecode: Bytecode<B>,
    batch: Batch,
    public_input: Vec<F>,
    proof_of_batch: P,
    built: Vec<F>,
    outcome: Result<Verified, String>,
    r: Result<(), String>,
)
    requires
        is_compression(h),
        complete(prove, verify, bytecode),
        fseq(public_input@) == batch_public_input(
            h,
            vm,
            batch.commitments@,
            Some(bytecode.hash),
        ),
        proved(prove, bytecode, public_input, batch_regions(batch), 1, proof_of_batch),
        fseq(built@) == batch_public_input(h, vm, batch.commitments@, Some(bytecode.hash)),
        call_ensures(verify, (&bytecode, &built, &proof_of_batch), outcome),
        reports(outcome, r),
    ensures
        r is Ok,
        fseq(public_input@) == fseq(built@),
        public_input@.len() == 16,
{
    let w = choose|w: Witness|
        fseq(w.private_input@) == batch_regions(batch) && w.merkle_paths@.len() == 0
            && #[trigger] call_ensures(
            prove,
            (&bytecode, &public_input, &w, 1usize),
            proof_of_batch,
        );
    assert(outcome is Ok);
    lemma_chain_digest(h, roots(batch.commitments@));
    lemma_compress(h, digest_view(bytecode.hash), digest_view(vm.domain_sep));
    assert(fseq(public_input@).len() == public_input@.len());
}

/// What a step of the unified recursion gives in a complete virtual machine verifies, and
/// can itself be taken by a further step.
pub proof fn lemma_unified_step_acceptable<
    H: Fn(Digest, Digest) -> Digest,
    B,
    P,
    S,
    V: Fn(&Bytecode<B>, &Vec<F>, &P) -> Result<Verified, String>,
    G: Fn(&Vec<Evaluation>) -> (S, EF),
    R: Fn(S, &Bytecode<B>, &Vec<Evaluation>, &Vec<EF>, EF) -> Reduction,
    Z: Fn(&Bytecode<B>, &Vec<F>, &Witness, usize) -> P,
>(
    h: H,
    vm: VmParams,
    verify: V,
    begin: G,
    sumcheck: R,
    prove: Z,
    bytecode: Bytecode<B>,
    rate: usize,
    proofs: Seq<(Vec<F>, P)>,
    result: (P, Vec<F>),
)
    requires
        is_compression(h),
        complete(prove, verify, bytecode),
        call_requires(verify, (&bytecode, &result.1, &result.0)),
        recursion_ready(h, vm, verify, begin, sumcheck, prove, bytecode, rate, proofs),
        unified_recursion_result(
            h,
            vm,
            verify,
            begin,
            sumcheck,
            prove,
            bytecode,
            rate,
            proofs,
            result,
        ),
    ensures
        acceptable(vm, verify, bytecode, (result.1, result.0)),
{
    lemma_unified_result_shape(
        h,
        vm,
        verify,
        begin,
        sumcheck,
        prove,
        bytecode,
        rate,
        proofs,
        result,
    );
    let n_vars = point_n_vars(bytecode.log_size as int, vm.n_instruction_columns as int);
    let (verified, reduction) = choose|verified: Seq<Verified>, reduction: Reduction|
        verified_by(verify, bytecode, proofs, verified) && is_reduction(
            begin,
            sumcheck,
            bytecode,
            paired_claims(proofs, verified, 8, n_vars),
            reduction,
        ) && #[trigger] unified_recursion_proved(
            h,
            vm,
            prove,
            bytecode,
            proofs,
            verified,
            reduction,
            rate,
            result,
        );
    lemma_with_paths_verifies(
        prove,
        verify,
        bytecode,
        result,
        recursion_private_input(
            proofs.len() as int,
            0,
            unified_parts(vm, proofs, verified, fseq(reduction.transcript@)),
            next_pow2(vm.input_start + result.1@.len()),
        ),
        all_paths(verified),
        rate,
    );
}

/// What aggregating proofs with the unified circuit of a complete virtual machine gives is
/// accepted, with openings that all verify, for any of the commitments that it covers.
pub proof fn lemma_unified_aggregate_accepted<
    H: Fn(Digest, Digest) -> Digest,
    B,
    P: Clone,
    S,
    V: Fn(&Bytecode<B>, &Vec<F>, &P) -> Result<Verified, String>,
    G: Fn(&Vec<Evaluation>) -> (S, EF),
    R: Fn(S, &Bytecode<B>, &Vec<Evaluation>, &Vec<EF>, EF) -> Reduction,
    Z: Fn(&Bytecode<B>, &Vec<F>, &Witness, usize) -> P,
>(
    h: H,
    vm: VmParams,
    verify: V,
    begin: G,
    sumcheck: R,
    prove: Z,
    ctx: UnifiedAggregationContext<B>,
    children: Seq<AggregatedProof<P>>,
    das_proof: DasProof<P>,
    openings: Seq<(usize, Opening)>,
    r: VerifyResult,
)
    requires
        complete(prove, verify, ctx.bytecode),
        unified_aggregate(
            h,
            vm,
            verify,
            begin,
            sumcheck,
            prove,
            ctx,
            children,
            das_proof.aggregated_proof,
        ),
        lists_all(das_proof.aggregated_proof.commitments@, das_proof.commitments@),
        das_openings_verdict(h, das_proof, openings, VerifyResult::Accept),
        unified_verdict(h, verify, ctx.bytecode, das_proof, openings, r),
    ensures
        r is Accept,
{
    let agg = das_proof.aggregated_proof;
    let bytecode = ctx.bytecode;
    let result = (agg.proof->Some_0, agg.public_input->Some_0);
    let inner = choose|inner: Seq<(Vec<F>, P)>|
        taken_from(children, inner) && #[trigger] unified_recursion_result(
            h,
            vm,
            verify,
            begin,
            sumcheck,
            prove,
            bytecode,
            ctx.log_inv_rate,
            inner,
            result,
        );
    let n_vars = point_n_vars(bytecode.log_size as int, vm.n_instruction_columns as int);
    let (verified, reduction) = choose|verified: Seq<Verified>, reduction: Reduction|
        verified_by(verify, bytecode, inner, verified) && is_reduction(
            begin,
            sumcheck,
            bytecode,
            paired_claims(inner, verified, 8, n_vars),
            reduction,
        ) && #[trigger] unified_recursion_proved(
            h,
            vm,
            prove,
            bytecode,
            inner,
            verified,
            reduction,
            ctx.log_inv_rate,
            result,
        );
    lemma_with_paths_verifies(
        prove,
        verify,
        bytecode,
        result,
        recursion_private_input(
            inner.len() as int,
            0,
            unified_parts(vm, inner, verified, fseq(reduction.transcript@)),
            next_pow2(vm.input_start + result.1@.len()),
        ),
        all_paths(verified),
        ctx.log_inv_rate,
    );
}

/// An accepted recursive proof verifies, and lists every commitment among those that it
/// covers; the openings all verify.
pub proof fn lemma_unified_accepted_covers<
    H: Fn(Digest, Digest) -> Digest,
    B,
    P,
    V: Fn(&Bytecode<B>, &Vec<F>, &P) -> Result<Verified, String>,
>(
    h: H,
    verify: V,
    bytecode: Bytecode<B>,
    das_proof: DasProof<P>,
    openings: Seq<(usize, Opening)>,
    r: VerifyResult,
)
    requires
        is_recursive(das_proof),
        unified_verdict(h, verify, bytecode, das_proof, openings, r),
        r is Accept,
    ensures
        lists_all(das_proof.aggregated_proof.commitments@, das_proof.commitments@),
        das_openings_verdict(h, das_proof, openings, VerifyResult::Accept),
        exists|outcome: Result<Verified, String>|
            outcome is Ok && #[trigger] call_ensures(
                verify,
                (
                    &bytecode,
                    &das_proof.aggregated_proof.public_input->Some_0,
                    &das_proof.aggregated_proof.proof->Some_0,
                ),
                outcome,
            ),
{
}

/// A proof with authentication paths in a complete virtual machine verifies.
proof fn lemma_with_paths_verifies<
    B,
    P,
    Z: Fn(&Bytecode<B>, &Vec<F>, &Witness, usize) -> P,
    V: Fn(&Bytecode<B>, &Vec<F>, &P) -> Result<Verified, String>,
>(
    prove: Z,
    verify: V,
    bytecode: Bytecode<B>,
    result: (P, Vec<F>),
    private_input: Seq<int>,
    paths: Seq<Seq<int>>,
    rate: usize,
)
    requires
        complete(prove, verify, bytecode),
        proved_with_paths(
            prove,
            bytecode,
            result.1,
            private_input,
            paths,
            rate,
            result.0,
        ),
    ensures
        forall|o: Result<Verified, String>| #[trigger]
            call_ensures(verify, (&bytecode, &result.1, &result.0), o) ==> o is Ok,
{
    let (p, pi) = result;
    let w = choose|w: Witness|
        fseq(w.private_input@) == private_input && vec_views(w.merkle_paths@) == paths
            && #[trigger] call_ensures(prove, (&bytecode, &pi, &w, rate), p);
    assert forall|o: Result<Verified, String>| #[trigger]
        call_ensures(verify, (&bytecode, &result.1, &result.0), o) implies o is Ok by {
        assert(call_ensures(prove, (&bytecode, &pi, &w, rate), p));
        assert(call_ensures(verify, (&bytecode, &pi, &p), o));
    }
}

/// What a step of the hybrid recursion gives in a complete virtual machine verifies, and can
/// itself be taken by a further step.
pub proof fn lemma_hybrid_step_acceptable<
    H: Fn(Digest, Digest) -> Digest,
    B,
    P,
    S,
    V: Fn(&Bytecode<B>, &Vec<F>, &P) -> Result<Verified, String>,
    G: Fn(&Vec<Evaluation>) -> (S, EF),
    R: Fn(S, &Bytecode<B>, &Vec<Evaluation>, &Vec<EF>, EF) -> Reduction,
    Z: Fn(&Bytecode<B>, &Vec<F>, &Witness, usize) -> P,
>(
    h: H,
    vm: VmParams,
    verify: V,
    begin: G,
    sumcheck: R,
    prove: Z,
    hybrid: Bytecode<B>,
    inner: Bytecode<B>,
    rate: usize,
    self_proofs: Seq<(Vec<F>, P)>,
    inner_proofs: Seq<(Vec<F>, P)>,
    result: (P, Vec<F>),
)
    requires
        is_compression(h),
        complete(prove, verify, hybrid),
        call_requires(verify, (&hybrid, &result.1, &result.0)),
        hybrid_ready(
            h,
            vm,
            verify,
            begin,
            sumcheck,
            prove,
            hybrid,
            inner,
            rate,
            self_proofs,
            inner_proofs,
        ),
        hybrid_recursion_result(
            h,
            vm,
            verify,
            begin,
            sumcheck,
            prove,
            hybrid,
            inner,
            rate,
            self_proofs,
            inner_proofs,
            result,
        ),
    ensures
        self_acceptable(vm, verify, hybrid, inner, (result.1, result.0)),
{
    lemma_hybrid_result_shape(
        h,
        vm,
        verify,
        begin,
        sumcheck,
        prove,
        hybrid,
        inner,
        rate,
        self_proofs,
        inner_proofs,
        result,
    );
    let s = choose|s: HybridStep<P>|
        is_hybrid_step(
            vm,
            verify,
            begin,
            sumcheck,
            hybrid,
            inner,
            self_proofs,
            inner_proofs,
            s,
        ) && #[trigger] hybrid_recursion_proved(h, vm, prove, hybrid, inner, s, rate, result);
    lemma_with_paths_verifies(
        prove,
        verify,
        hybrid,
        result,
        recursion_private_input(
            s.self_proofs.len() as int,
            s.inner_proofs.len() as int,
            step_parts(vm, s),
            next_pow2(vm.input_start + result.1@.len()),
        ),
        all_paths(s.self_verified) + all_paths(s.inner_verified),
        rate,
    );
}

/// What the pipeline proves in a complete virtual machine for codewords of equal length
/// is accepted, with any honest openings of the codewords, when it is verified with the
/// circuit that it was proved with.
pub proof fn lemma_proved_run_accepted<
    H: Fn(Digest, Digest) -> Digest,
    B,
    P: Clone,
    C: Fn(CircuitKind, Replacements) -> Bytecode<B>,
    Z: Fn(&Bytecode<B>, &Vec<F>, &Witness, usize) -> P,
    V: Fn(&Bytecode<B>, &Vec<F>, &P) -> Result<Verified, String>,
>(
    h: H,
    vm: VmParams,
    compile: C,
    prove: Z,
    verify: V,
    config: DasConfig,
    codewords: Seq<Codeword>,
    bytecode: Bytecode<B>,
    das_proof: DasProof<P>,
    openings: Seq<(usize, Opening)>,
    r: VerifyResult,
)
    requires
        das_inputs(config, codewords),
        same_length(codewords, codewords[0]@.len() as int),
        is_das_proof(h, config, codewords, das_proof),
        batches_proved(
            h,
            vm,
            prove,
            bytecode,
            codewords,
            das_proof.commitments@,
            das_proof.batch_size as int,
            das_proof.aggregated_proof.batch_proofs@,
        ),
        complete(prove, verify, bytecode),
        honest_openings(h, codewords, das_proof.evals_per_leaf as int, openings),
        das_verdict(h, vm, compile, verify, das_proof, openings, Some(bytecode), r),
    ensures
        r is Accept,
{
    lemma_run_covers(h, config, codewords, das_proof);
    lemma_honest_openings_accepted(h, config, codewords, das_proof, openings);
    let proofs = das_proof.aggregated_proof.batch_proofs@;
    assert(verdict(h, vm, verify, bytecode, das_proof, openings, r) || batches_verdict(
        h,
        das_proof,
        openings,
        r,
    ));
    if r is RejectProof && !batches_verdict(h, das_proof, openings, r) {
        let j = r->batch_index as int;
        assert(proves_batch(
            h,
            vm,
            prove,
            bytecode,
            codewords,
            das_proof.commitments@,
            das_proof.batch_size as int,
            j,
            proofs[j],
        ));
        let bp = proofs[j];
        let batch = choose|batch: Batch|
            is_batch(
                batch,
                codewords,
                das_proof.commitments@,
                das_proof.batch_size as int,
                j,
            ) && #[trigger] batch_proved(h, vm, prove, bytecode, batch, bp);
        assert(proof_checked(h, vm, verify, bytecode, bp, false));
        let (pi, outcome) = choose|public_input: Vec<F>, outcome: Result<Verified, String>|
            fseq(public_input@) == batch_public_input(
                h,
                vm,
                bp.commitments@,
                Some(bytecode.hash),
            ) && outcome is Ok == false && #[trigger] call_ensures(
                verify,
                (&bytecode, &public_input, &bp.proof->Some_0),
                outcome,
            );
        let made_for = bp.public_input->Some_0;
        let p = bp.proof->Some_0;
        let w = choose|w: Witness|
            fseq(w.private_input@) == batch_regions(batch)
                && w.merkle_paths@.len() == 0 && #[trigger] call_ensures(
                prove,
                (&bytecode, &made_for, &w, 1usize),
                p,
            );
        assert(call_ensures(prove, (&bytecode, &made_for, &w, 1usize), p));
        assert(call_ensures(verify, (&bytecode, &pi, &p), outcome));
        assert(false);
    }
}

/// An accepted opening of a leaf of a committed codeword holds the leaf's evaluations; else
/// verifying it compresses a pair, and committing to the codeword a different pair, with
/// the same compression.
pub proof fn lemma_accepted_opening_sound<
    H: Fn(Digest, Digest) -> Digest,
    B,
    P: Clone,
    C: Fn(CircuitKind, Replacements) -> Bytecode<B>,
    V: Fn(&Bytecode<B>, &Vec<F>, &P) -> Result<Verified, String>,
>(
    h: H,
    vm: VmParams,
    compile: C,
    verify: V,
    config: DasConfig,
    codewords: Seq<Codeword>,
    das_proof: DasProof<P>,
    openings: Seq<(usize, Opening)>,
    given: Option<Bytecode<B>>,
    r: VerifyResult,
    i: int,
)
    requires
        is_compression(h),
        das_inputs(config, codewords),
        is_das_proof(h, config, codewords, das_proof),
        das_verdict(h, vm, compile, verify, das_proof, openings, given, r),
        r is Accept,
        0 <= i < openings.len(),
        openings[i].0 < codewords.len(),
        codewords[openings[i].0 as int]@.len() == das_proof.codeword_length,
        openings[i].1.leaf_index < das_proof.codeword_length as int
            / das_proof.evals_per_leaf as int,
    ensures
        fseq(openings[i].1.values@) == leaf_values(
            codewords[openings[i].0 as int]@,
            das_proof.evals_per_leaf as int,
            openings[i].1.leaf_index as int,
        ) || pairs_collide(
            h,
            hashed_pairs(h, openings[i].1),
            committed_pairs(
                h,
                codewords[openings[i].0 as int]@,
                das_proof.evals_per_leaf as int,
            ),
        ),
{
    let o = openings[i];
    let cw = codewords[o.0 as int];
    let epl = das_proof.evals_per_leaf as int;
    let n = das_proof.codeword_length as int;
    assert(das_openings_verdict(h, das_proof, openings, r));
    assert(opening_verifies(h, das_proof.commitments@, n, epl, o));
    assert(das_proof.commitments@[o.0 as int]@ == codeword_root(h, cw@, epl));
    if fseq(o.1.values@) != leaf_values(cw@, epl, o.1.leaf_index as int) {
        lemma_fseq_canonical(cw.evals@);
        lemma_opening_sound(h, cw@, epl, o.1);
    }
}

/// Consistency: two accepted openings of the same leaf of the same commitment hold the same
/// values; else verifying the first compresses a pair, and verifying the second a different
/// pair, with the same compression.
pub proof fn lemma_accepted_openings_agree<H: Fn(Digest, Digest) -> Digest, P>(
    h: H,
    das_proof: DasProof<P>,
    openings: Seq<(usize, Opening)>,
    others: Seq<(usize, Opening)>,
    i: int,
    j: int,
)
    requires
        is_compression(h),
        leaf_len(das_proof.evals_per_leaf as int),
        das_openings_verdict(h, das_proof, openings, VerifyResult::Accept),
        das_openings_verdict(h, das_proof, others, VerifyResult::Accept),
        0 <= i < openings.len(),
        0 <= j < others.len(),
        openings[i].0 == others[j].0,
        openings[i].1.leaf_index == others[j].1.leaf_index,
    ensures
        fseq(openings[i].1.values@) == fseq(others[j].1.values@) || pairs_collide(
            h,
            hashed_pairs(h, openings[i].1),
            hashed_pairs(h, others[j].1),
        ),
{
    let (coms, n) = (das_proof.commitments@, das_proof.codeword_length as int);
    let epl = das_proof.evals_per_leaf as int;
    let (a, b) = (openings[i], others[j]);
    assert(opening_verifies(h, coms, n, epl, a));
    assert(opening_verifies(h, coms, n, epl, b));
    if fseq(a.1.values@) != fseq(b.1.values@) {
        lemma_opening_binding(h, coms[a.0 as int]@, a.1, b.1, epl, log2(n / epl));
    }
}

/// The batch proofs cover the commitments, each once and in order.
pub proof fn lemma_batches_partition<H: Fn(Digest, Digest) -> Digest, P: Clone>(
    h: H,
    config: DasConfig,
    codewords: Seq<Codeword>,
    das_proof: DasProof<P>,
)
    requires
        das_inputs(config, codewords),
        is_das_proof(h, config, codewords, das_proof),
    ensures
        flat(covered(das_proof.aggregated_proof.batch_proofs@)) == das_proof.commitments@,
        forall|j: int|
            0 <= j < das_proof.aggregated_proof.batch_proofs@.len() ==> 0 < (
            #[trigger] das_proof.aggregated_proof.batch_proofs@[j]).commitments@.len()
                <= config.batch_size,
{
    let k = used_batch_size(config, codewords.len() as int);
    let coms = das_proof.commitments@;
    let proofs = das_proof.aggregated_proof.batch_proofs@;
    lemma_chunk_total(coms.len() as int, k);
    lemma_flat_chunks(coms, k);
    assert(covered(proofs) =~= Seq::new(
        chunk_count(coms.len() as int, k) as nat,
        |j: int| chunk(coms, k, j),
    ));
    assert forall|j: int| 0 <= j < proofs.len() implies 0 < (
    #[trigger] proofs[j]).commitments@.len() <= config.batch_size by {
        crate::slices::lemma_chunk_bounds(coms.len() as int, k, j);
    }
}

/// A batch of codewords passes every membership check: its combination is accepted by the
/// folding check whatever the challenges, and folds to a constant layer whatever the one
/// challenge of the precomputed check.
pub proof fn lemma_valid_batch_accepted(
    codewords: Seq<Seq<int>>,
    challenges: Seq<Ext>,
    n: int,
    degree: int,
    d: nat,
    alphas: Seq<Ext>,
    beta: Ext,
)
    requires
        plan_params(n, degree),
        d <= degree <= n / 2,
        codewords.len() == challenges.len(),
        forall|i: int| 0 <= i < challenges.len() ==> ewf(#[trigger] challenges[i]),
        forall|i: int|
            0 <= i < codewords.len() ==> in_code(embed_seq(#[trigger] codewords[i]), n, d),
        alphas.len() >= log2(n) - 1,
    ensures
        rs_check(rlc(codewords, challenges, n as nat), alphas),
        all_equal(folded(rlc(codewords, challenges, n as nat), log2(degree), beta)),
{
    let v = rlc(codewords, challenges, n as nat);
    crate::numeric::lemma_pow2_log2(n);
    crate::numeric::lemma_pow2_log2(degree);
    lemma_rlc_in_code(codewords, challenges, n, d);
    lemma_codeword_accepted(v, d, alphas);
    lemma_codeword_folds_to_constant(v, degree, d, beta);
}

} // verus!
