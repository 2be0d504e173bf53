//! What each verdict on a proof says, and what the pipeline puts into its batches.

use crate::batch::{derived_challenges, BatchProof};
use crate::circuit::{circuit_params, das_replacements, unified_for_own_size, CircuitKind};
use crate::circuit_laws::{lemma_batch_circuit_constants, number_at};
use crate::compile_laws::{lemma_unified_refers_to_itself, refers_to_itself};
use crate::commitment::path_root;
use crate::ext::{eseq, ext_of, fseq};
use crate::field::F;
use crate::hash::leaf_hash;
use crate::inputs::{chain, roots};
use crate::machine::{MachineParams, WhirSummary};
use crate::numeric::log2;
use crate::pipeline::{is_batch, is_das_proof, used_bytecode, DasConfig, DasProof};
use crate::rlc::cw_views;
use crate::slices::{chunk, chunk_end};
use crate::text::Replacements;
use crate::types::{digest_view, Batch, Codeword, Commitment, Digest, Opening};
use crate::verification::{
    any_proof, batches_verdict, das_verdict, is_covered, is_recursive, proof_checked,
    unified_das_verdict, unified_verdict, verdict, verifier_bytecode, VerifyResult,
};
use crate::vm::{bound_hash, Bytecode, Verified, VmParams};
use vstd::arithmetic::power2::pow2;
use vstd::prelude::*;

verus! {

/// The verifier of the virtual machine, asked about a proof and the given public input, may
/// accept, or may refuse.
pub open spec fn answers<B, P, V: Fn(&Bytecode<B>, &Vec<F>, &P) -> Result<Verified, String>>(
    verify: V,
    bytecode: Bytecode<B>,
    input: Seq<int>,
    proof_given: P,
    accepts: bool,
) -> bool {
    exists|pi: Vec<F>, outcome: Result<Verified, String>|
        fseq(pi@) == input && (outcome is Ok) == accepts && #[trigger] call_ensures(
            verify,
            (&bytecode, &pi, &proof_given),
            outcome,
        )
}

/// The proof of a batch is answered with the public input that its commitments and the
/// program make.
pub open spec fn batch_answered<
    H: Fn(Digest, Digest) -> Digest,
    B,
    P,
    V: Fn(&Bytecode<B>, &Vec<F>, &P) -> Result<Verified, String>,
>(
    h: H,
    vm: VmParams,
    verify: V,
    bytecode: Bytecode<B>,
    bp: BatchProof<P>,
    accepts: bool,
) -> bool {
    answers(
        verify,
        bytecode,
        chain(h, roots(bp.commitments@)) + bound_hash(h, vm, bytecode.hash),
        bp.proof->Some_0,
        accepts,
    )
}

/// The opening has a leaf of the right size and a path as long as the tree is high, and the
/// path leads from the leaf's hash to the commitment's root.
pub open spec fn opening_leads_to_root<H: Fn(Digest, Digest) -> Digest, P>(
    h: H,
    das_proof: DasProof<P>,
    o: (usize, Opening),
) -> bool {
    let (n, epl) = (das_proof.codeword_length as int, das_proof.evals_per_leaf as int);
    &&& o.1.values@.len() == epl
    &&& o.1.siblings@.len() == log2(n / epl)
    &&& path_root(
        h,
        leaf_hash(h, fseq(o.1.values@)),
        o.1.leaf_index as int,
        Seq::new(o.1.siblings@.len(), |i: int| digest_view(o.1.siblings@[i])),
    ) == das_proof.commitments@[o.0 as int]@
}

proof fn lemma_opening_means<H: Fn(Digest, Digest) -> Digest, P>(
    h: H,
    das_proof: DasProof<P>,
    o: (usize, Opening),
)
    ensures
        opening_leads_to_root(h, das_proof, o) == crate::verification::opening_verifies(
            h,
            das_proof.commitments@,
            das_proof.codeword_length as int,
            das_proof.evals_per_leaf as int,
            o,
        ),
{
    assert(Seq::new(o.1.siblings@.len(), |i: int| digest_view(o.1.siblings@[i]))
        =~= crate::commitment::digests(o.1.siblings@));
}

/// What a verdict says. An accepted proof has all its batch proofs accepted, all openings
/// lead to their roots, and each commitment is in some batch. A batch that is rejected is
/// refused, and those before it are accepted. An opening that is rejected does not lead to
/// its root, those before it do, and all batch proofs are accepted. The index behind the last
/// batch stands for a commitment that is in no batch, where all else is accepted.
pub proof fn lemma_verdict_means<
    H: Fn(Digest, Digest) -> Digest,
    B,
    P,
    C: Fn(CircuitKind, Replacements) -> Bytecode<B>,
    V: Fn(&Bytecode<B>, &Vec<F>, &P) -> Result<Verified, String>,
>(
    h: H,
    vm: VmParams,
    compile: C,
    verify: V,
    das_proof: DasProof<P>,
    openings: Seq<(usize, Opening)>,
    given: Bytecode<B>,
    r: VerifyResult,
)
    requires
        das_verdict(h, vm, compile, verify, das_proof, openings, Some(given), r),
    ensures
        ({
            let proofs = das_proof.aggregated_proof.batch_proofs@;
            match r {
                VerifyResult::Accept => {
                    &&& forall|i: int|
                        0 <= i < proofs.len() && (#[trigger] proofs[i]).proof is Some
                            ==> batch_answered(h, vm, verify, given, proofs[i], true)
                    &&& forall|i: int|
                        0 <= i < openings.len() ==> opening_leads_to_root(
                            h,
                            das_proof,
                            #[trigger] openings[i],
                        )
                    &&& forall|i: int|
                        0 <= i < das_proof.commitments@.len() ==> is_covered(
                            proofs,
                            (#[trigger] das_proof.commitments@[i])@,
                        )
                },
                VerifyResult::RejectProof { batch_index } => {
                    let j = batch_index as int;
                    &&& j <= proofs.len()
                    &&& j < proofs.len() ==> proofs[j].proof is Some && batch_answered(
                        h,
                        vm,
                        verify,
                        given,
                        proofs[j],
                        false,
                    )
                    &&& forall|i: int|
                        0 <= i < j && (#[trigger] proofs[i]).proof is Some ==> batch_answered(
                            h,
                            vm,
                            verify,
                            given,
                            proofs[i],
                            true,
                        )
                    &&& j == proofs.len() ==> {
                        &&& exists|i: int|
                            0 <= i < das_proof.commitments@.len() && !is_covered(
                                proofs,
                                (#[trigger] das_proof.commitments@[i])@,
                            )
                        &&& forall|i: int|
                            0 <= i < openings.len() ==> opening_leads_to_root(
                                h,
                                das_proof,
                                #[trigger] openings[i],
                            )
                    }
                },
                VerifyResult::RejectOpening { codeword_index, position } => {
                    &&& forall|i: int|
                        0 <= i < proofs.len() && (#[trigger] proofs[i]).proof is Some
                            ==> batch_answered(h, vm, verify, given, proofs[i], true)
                    &&& exists|i: int|
                        {
                            &&& 0 <= i < openings.len()
                            &&& codeword_index == (#[trigger] openings[i]).0
                            &&& position == openings[i].1.leaf_index
                            &&& !opening_leads_to_root(h, das_proof, openings[i])
                            &&& forall|k: int|
                                0 <= k < i ==> opening_leads_to_root(
                                    h,
                                    das_proof,
                                    #[trigger] openings[k],
                                )
                        }
                },
            }
        }),
{
    let proofs = das_proof.aggregated_proof.batch_proofs@;
    assert forall|i: int, ok: bool|
        0 <= i < proofs.len() && proofs[i].proof is Some && #[trigger] proof_checked(
            h,
            vm,
            verify,
            given,
            proofs[i],
            ok,
        ) implies batch_answered(h, vm, verify, given, proofs[i], ok) by {
        let bp = proofs[i];
        let (pi, outcome) = choose|public_input: Vec<F>, outcome: Result<Verified, String>|
            fseq(public_input@) == crate::inputs::batch_public_input(
                h,
                vm,
                bp.commitments@,
                Some(given.hash),
            ) && outcome is Ok == ok && #[trigger] call_ensures(
                verify,
                (&given, &public_input, &bp.proof->Some_0),
                outcome,
            );
        assert(call_ensures(verify, (&given, &pi, &bp.proof->Some_0), outcome));
    }
    assert forall|i: int| 0 <= i < openings.len() implies opening_leads_to_root(
        h,
        das_proof,
        #[trigger] openings[i],
    ) == crate::verification::opening_verifies(
        h,
        das_proof.commitments@,
        das_proof.codeword_length as int,
        das_proof.evals_per_leaf as int,
        openings[i],
    ) by {
        lemma_opening_means(h, das_proof, openings[i]);
    }
    if any_proof(proofs) {
        let bytecode = choose|bytecode: Bytecode<B>|
            verifier_bytecode(vm, compile, das_proof, Some(given), bytecode)
                && #[trigger] verdict(
                h,
                vm,
                verify,
                bytecode,
                das_proof,
                openings,
                r,
            );
        assert(bytecode == given);
    }
    assert(verdict(h, vm, verify, given, das_proof, openings, r) || (!any_proof(proofs)
        && batches_verdict(h, das_proof, openings, r)));
}

/// What a verdict on a recursive proof says: the one proof is refused, or it is accepted and
/// the first opening that does not lead to its root is named, or all do and a commitment is
/// not listed, or every commitment is listed too.
pub proof fn lemma_unified_verdict_means<
    H: Fn(Digest, Digest) -> Digest,
    B,
    P,
    V: Fn(&Bytecode<B>, &Vec<F>, &P) -> Result<Verified, String>,
>(
    h: H,
    verify: V,
    bytecode: Bytecode<B>,
    das_proof: DasProof<P>,
    openings: Seq<(usize, Opening)>,
    r: VerifyResult,
)
    requires
        is_recursive(das_proof),
        unified_verdict(h, verify, bytecode, das_proof, openings, r),
    ensures
        ({
            let agg = das_proof.aggregated_proof;
            let input = fseq(agg.public_input->Some_0@);
            let refused = r == (VerifyResult::RejectProof { batch_index: 0 });
            &&& answers(verify, bytecode, input, agg.proof->Some_0, !refused)
            &&& r is Accept || r is RejectProof && !refused ==> forall|i: int|
                0 <= i < openings.len() ==> opening_leads_to_root(
                    h,
                    das_proof,
                    #[trigger] openings[i],
                )
            &&& r is RejectProof && !refused ==> r->batch_index == 1
            &&& r is RejectOpening ==> exists|i: int|
                {
                    &&& 0 <= i < openings.len()
                    &&& r->codeword_index == (#[trigger] openings[i]).0
                    &&& r->position == openings[i].1.leaf_index
                    &&& !opening_leads_to_root(h, das_proof, openings[i])
                    &&& forall|k: int|
                        0 <= k < i ==> opening_leads_to_root(h, das_proof, #[trigger] openings[k])
                }
            &&& r is Accept ==> forall|i: int|
                0 <= i < das_proof.commitments@.len() ==> roots(agg.commitments@).contains(
                    (#[trigger] das_proof.commitments@[i])@,
                )
        }),
{
    let agg = das_proof.aggregated_proof;
    assert forall|i: int| 0 <= i < openings.len() implies opening_leads_to_root(
        h,
        das_proof,
        #[trigger] openings[i],
    ) == crate::verification::opening_verifies(
        h,
        das_proof.commitments@,
        das_proof.codeword_length as int,
        das_proof.evals_per_leaf as int,
        openings[i],
    ) by {
        lemma_opening_means(h, das_proof, openings[i]);
    }
}

/// Every codeword is in one batch with its own commitment, its own index and the challenge
/// that is drawn from its own commitment: codeword `p` is at place `p` modulo the batch size
/// of batch `p` over the batch size.
pub proof fn lemma_batch_contents(
    batch: Batch,
    codewords: Seq<Codeword>,
    commitments: Seq<Commitment>,
    k: int,
    j: int,
    p: int,
)
    requires
        k > 0,
        commitments.len() == codewords.len(),
        is_batch(batch, codewords, commitments, k, j),
        0 <= p < codewords.len(),
        j == p / k,
    ensures
        ({
            let i = p % k;
            &&& 0 <= i < batch.codewords@.len()
            &&& batch.indices@[i] == p
            &&& batch.codewords@[i]@ == codewords[p]@
            &&& batch.commitments@[i] == commitments[p]
            &&& batch.challenges@[i]@.c0 == commitments[p].root@[0]@
            &&& batch.challenges@[i]@.c1 == commitments[p].root@[1]@
            &&& batch.challenges@[i]@.c2 == commitments[p].root@[2]@
            &&& batch.challenges@[i]@.c3 == commitments[p].root@[3]@
            &&& batch.challenges@[i]@.c4 == commitments[p].root@[4]@
            &&& batch.codewords@.len() <= k
            &&& batch.codewords@.len() == batch.commitments@.len()
            &&& batch.codewords@.len() == batch.challenges@.len()
        }),
{
    let n = codewords.len() as int;
    let i = p % k;
    vstd::arithmetic::div_mod::lemma_fundamental_div_mod(p, k);
    assert(0 <= i < k);
    assert(k * j == j * k) by (nonlinear_arith);
    assert((j + 1) * k == j * k + k) by (nonlinear_arith);
    assert(j >= 0) by (nonlinear_arith)
        requires
            j == p / k,
            p >= 0,
            k > 0,
    ;
    assert(j * k >= 0) by (nonlinear_arith)
        requires
            j >= 0,
            k > 0,
    ;
    let part = chunk(codewords, k, j);
    let coms = chunk(commitments, k, j);
    assert(part.len() == chunk_end(n, k, j + 1) - j * k);
    assert(i < part.len());
    assert(cw_views(batch.codewords@).len() == batch.codewords@.len());
    assert(cw_views(part).len() == part.len());
    assert(cw_views(batch.codewords@)[i] == cw_views(part)[i]);
    assert(part[i] == codewords[p]);
    assert(coms[i] == commitments[p]);
    assert(eseq(batch.challenges@).len() == batch.challenges@.len());
    assert(eseq(batch.challenges@)[i] == derived_challenges(coms)[i]);
    assert(batch.challenges@[i]@ == ext_of(commitments[p]@));
}

/// The program comes out of compiling the batch template with the constants of a proof: its
/// batch size, codeword length, leaf size and degree.
pub open spec fn compiled_for<B, C: Fn(CircuitKind, Replacements) -> Bytecode<B>>(
    compile: C,
    batch_size: int,
    codeword_length: int,
    evals_per_leaf: int,
    degree: int,
    bytecode: Bytecode<B>,
    r: Replacements,
) -> bool {
    &&& call_ensures(compile, (CircuitKind::Batch, r), bytecode)
    &&& number_at(r@, "__BATCH_SIZE__"@) == batch_size
    &&& number_at(r@, "__CODEWORD_LEN__"@) == codeword_length
    &&& number_at(r@, "__EPL__"@) == evals_per_leaf
    &&& pow2(number_at(r@, "__NUM_FOLD_ROUNDS__"@) as nat) == degree
}

/// A verifier without a circuit compiles one with the constants of the proof, and its verdict
/// is that with this circuit.
pub proof fn lemma_verifier_compiles_for_the_proof<
    H: Fn(Digest, Digest) -> Digest,
    B,
    P,
    C: Fn(CircuitKind, Replacements) -> Bytecode<B>,
    V: Fn(&Bytecode<B>, &Vec<F>, &P) -> Result<Verified, String>,
>(
    h: H,
    vm: VmParams,
    compile: C,
    verify: V,
    das_proof: DasProof<P>,
    openings: Seq<(usize, Opening)>,
    r: VerifyResult,
)
    requires
        das_verdict(h, vm, compile, verify, das_proof, openings, None::<Bytecode<B>>, r),
        any_proof(das_proof.aggregated_proof.batch_proofs@),
        circuit_params(
            das_proof.codeword_length as int,
            das_proof.evals_per_leaf as int,
            das_proof.degree as int,
        ),
    ensures
        exists|bytecode: Bytecode<B>, q: Replacements| #[trigger]
            compiled_for(
                compile,
                das_proof.batch_size as int,
                das_proof.codeword_length as int,
                das_proof.evals_per_leaf as int,
                das_proof.degree as int,
                bytecode,
                q,
            ) && das_verdict(
                h,
                vm,
                compile,
                verify,
                das_proof,
                openings,
                Some(bytecode),
                r,
            ),
{
    let bytecode = choose|bytecode: Bytecode<B>|
        verifier_bytecode(vm, compile, das_proof, None, bytecode) && #[trigger] verdict(
            h,
            vm,
            verify,
            bytecode,
            das_proof,
            openings,
            r,
        );
    let want = das_replacements(
        vm,
        das_proof.batch_size as int,
        das_proof.codeword_length as int,
        das_proof.evals_per_leaf as int,
        das_proof.degree as int,
    );
    let q = choose|q: Replacements|
        q.wf() && q@ == want && #[trigger] call_ensures(
            compile,
            (CircuitKind::Batch, q),
            bytecode,
        );
    lemma_batch_circuit_constants(
        vm,
        das_proof.batch_size as int,
        das_proof.codeword_length as int,
        das_proof.evals_per_leaf as int,
        das_proof.degree as int,
    );
    assert(verifier_bytecode(vm, compile, das_proof, Some(bytecode), bytecode));
    assert(das_verdict(h, vm, compile, verify, das_proof, openings, Some(bytecode), r));
    assert(compiled_for(
        compile,
        das_proof.batch_size as int,
        das_proof.codeword_length as int,
        das_proof.evals_per_leaf as int,
        das_proof.degree as int,
        bytecode,
        q,
    ));
}

/// A verifier of what the pipeline gives compiles the circuit that the pipeline compiles.
pub proof fn lemma_prover_and_verifier_agree<
    H: Fn(Digest, Digest) -> Digest,
    B,
    P: Clone,
    C: Fn(CircuitKind, Replacements) -> Bytecode<B>,
>(
    h: H,
    vm: VmParams,
    compile: C,
    config: DasConfig,
    codewords: Seq<Codeword>,
    das_proof: DasProof<P>,
    bytecode: Bytecode<B>,
)
    requires
        is_das_proof(h, config, codewords, das_proof),
    ensures
        verifier_bytecode(vm, compile, das_proof, None, bytecode) <==> used_bytecode(
            vm,
            compile,
            config,
            codewords,
            None,
            bytecode,
        ),
{
}

/// A verdict on a recursive proof is that with a unified circuit that is compiled for itself,
/// with the constants of the proof.
pub proof fn lemma_unified_verifier_compiles_for_the_proof<
    H: Fn(Digest, Digest) -> Digest,
    B,
    P,
    C: Fn(CircuitKind, Replacements) -> Bytecode<B>,
    W: Fn(usize, usize) -> WhirSummary,
    S: Fn(usize) -> usize,
    V: Fn(&Bytecode<B>, &Vec<F>, &P) -> Result<Verified, String>,
>(
    h: H,
    vm: VmParams,
    m: MachineParams,
    compile: C,
    whir: W,
    min_stacked: S,
    verify: V,
    das_proof: DasProof<P>,
    openings: Seq<(usize, Opening)>,
    r: VerifyResult,
) -> (found: (Bytecode<B>, Replacements, usize))
    requires
        unified_das_verdict(
            h,
            vm,
            m,
            compile,
            whir,
            min_stacked,
            verify,
            das_proof,
            openings,
            r,
        ),
        circuit_params(
            das_proof.codeword_length as int,
            das_proof.evals_per_leaf as int,
            das_proof.degree as int,
        ),
    ensures
        ({
            let (bytecode, q, ms) = found;
            &&& call_ensures(compile, (CircuitKind::Unified, q), bytecode)
            &&& number_at(q@, "LOG_GUEST_BYTECODE_LEN_PLACEHOLDER"@) == bytecode.log_size
            &&& number_at(q@, "__BATCH_SIZE__"@) == das_proof.batch_size
            &&& number_at(q@, "__CODEWORD_LEN__"@) == das_proof.codeword_length
            &&& pow2(number_at(q@, "__NUM_FOLD_ROUNDS__"@) as nat) == das_proof.degree
            &&& unified_verdict(h, verify, bytecode, das_proof, openings, r)
        }),
{
    let base = das_replacements(
        vm,
        das_proof.batch_size as int,
        das_proof.codeword_length as int,
        das_proof.evals_per_leaf as int,
        das_proof.degree as int,
    );
    let bytecode = choose|bytecode: Bytecode<B>|
        unified_for_own_size(vm, m, compile, whir, min_stacked, base, bytecode)
            && #[trigger] unified_verdict(h, verify, bytecode, das_proof, openings, r);
    lemma_unified_refers_to_itself(vm, m, compile, whir, min_stacked, base, bytecode);
    let (q, ms) = choose|q: Replacements, ms: usize| #[trigger]
        refers_to_itself(compile, min_stacked, base, bytecode, q, ms);
    lemma_batch_circuit_constants(
        vm,
        das_proof.batch_size as int,
        das_proof.codeword_length as int,
        das_proof.evals_per_leaf as int,
        das_proof.degree as int,
    );
    (bytecode, q, ms)
}

} // verus!
