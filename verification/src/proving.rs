//! Proofs of single batches and their verification.
//!
//! The virtual machine is given by two functions: one that proves an execution of a
//! program from its public input and witness at a rate, and one that verifies a proof.

use crate::commitment::digests;
use crate::ext::fseq;
use crate::field::F;
use crate::hash::is_compression;
use crate::inputs::{
    batch_public_input, build_public_memory, build_unified_public_input, chain, default_claim,
    hash_commitments, prepare_public_input_with_hash, roots, unified_layout,
};
use crate::numeric::next_pow2;
use crate::rlc::same_length;
use crate::types::{Batch, Digest};
use crate::vm::{bound_hash, point_n_vars, sizes_fit, Bytecode, Verified, VmParams, Witness};
use crate::witness::{
    batch_data, batch_regions, covers_first, prepare_batch_regions,
    prepare_spotcheck_private_input, prepare_unified_leaf_private_input, spotcheck_input,
    unified_leaf_input,
};
use vstd::prelude::*;

verus! {

/// `prove` can be called for the given public input and private input with no
/// authentication paths.
pub open spec fn proves<B, P, Z: Fn(&Bytecode<B>, &Vec<F>, &Witness, usize) -> P>(
    prove: Z,
    bytecode: Bytecode<B>,
    public_input: Seq<int>,
    private_input: Seq<int>,
    rate: usize,
) -> bool {
    forall|pi: Vec<F>, w: Witness|
        fseq(pi@) == public_input && fseq(w.private_input@) == private_input
            && w.merkle_paths@.len() == 0 ==> #[trigger] call_requires(
            prove,
            (&bytecode, &pi, &w, rate),
        )
}

/// `prove` can be called for a batch and the batch circuit.
pub open spec fn proves_circuit<
    H: Fn(Digest, Digest) -> Digest,
    B,
    P,
    Z: Fn(&Bytecode<B>, &Vec<F>, &Witness, usize) -> P,
>(h: H, vm: VmParams, prove: Z, bytecode: Bytecode<B>, batch: Batch) -> bool {
    proves(
        prove,
        bytecode,
        batch_public_input(h, vm, batch.commitments@, Some(bytecode.hash)),
        batch_regions(batch),
        1,
    )
}

/// `proof` is what `prove` gives for a public input and a witness with the given private
/// input and no authentication paths.
pub open spec fn proved<B, P, Z: Fn(&Bytecode<B>, &Vec<F>, &Witness, usize) -> P>(
    prove: Z,
    bytecode: Bytecode<B>,
    public_input: Vec<F>,
    private_input: Seq<int>,
    rate: usize,
    proof: P,
) -> bool {
    exists|w: Witness|
        fseq(w.private_input@) == private_input && w.merkle_paths@.len() == 0
            && #[trigger] call_ensures(prove, (&bytecode, &public_input, &w, rate), proof)
}

/// `verify` can be called on every input.
pub open spec fn verifies<B, P, V: Fn(&Bytecode<B>, &Vec<F>, &P) -> Result<Verified, String>>(
    verify: V,
) -> bool {
    forall|b: &Bytecode<B>, pi: &Vec<F>, p: &P| #[trigger] call_requires(verify, (b, pi, p))
}

/// Prove a batch with the batch circuit; returns the proof and its public input.
pub fn prove_circuit<
    H: Fn(Digest, Digest) -> Digest,
    B,
    P,
    Z: Fn(&Bytecode<B>, &Vec<F>, &Witness, usize) -> P,
>(
    h: &H,
    vm: &VmParams,
    prove: &Z,
    bytecode: &Bytecode<B>,
    batch: &Batch,
    _degree: usize,
) -> (r: (P, Vec<F>))
    requires
        is_compression(*h),
        covers_first(batch.codewords@),
        proves_circuit(*h, *vm, *prove, *bytecode, *batch),
    ensures
        fseq(r.1@) == batch_public_input(*h, *vm, batch.commitments@, Some(bytecode.hash)),
        proved(*prove, *bytecode, r.1, batch_regions(*batch), 1, r.0),
{
    let public_input = prepare_public_input_with_hash(h, vm, batch, bytecode);
    let private_input = prepare_batch_regions(batch);
    let witness = Witness { private_input, merkle_paths: Vec::new() };
    let proof = prove(bytecode, &public_input, &witness, 1);
    (proof, public_input)
}

/// Prove a batch with the spot-check circuit; returns the proof and its public input.
pub fn prove_spotcheck_circuit<
    H: Fn(Digest, Digest) -> Digest,
    B,
    P,
    Z: Fn(&Bytecode<B>, &Vec<F>, &Witness, usize) -> P,
>(
    h: &H,
    vm: &VmParams,
    prove: &Z,
    bytecode: &Bytecode<B>,
    batch: &Batch,
    degree: usize,
) -> (r: (P, Vec<F>))
    requires
        is_compression(*h),
        batch.codewords@.len() > 0,
        batch.codewords@.len() == batch.challenges@.len(),
        same_length(batch.codewords@, batch.codewords@[0]@.len() as int),
        proves(
            *prove,
            *bytecode,
            batch_public_input(*h, *vm, batch.commitments@, Some(bytecode.hash)),
            spotcheck_input(*batch),
            1,
        ),
    ensures
        fseq(r.1@) == batch_public_input(*h, *vm, batch.commitments@, Some(bytecode.hash)),
        proved(*prove, *bytecode, r.1, spotcheck_input(*batch), 1, r.0),
{
    let public_input = prepare_public_input_with_hash(h, vm, batch, bytecode);
    let private_input = prepare_spotcheck_private_input(batch, degree);
    let witness = Witness { private_input, merkle_paths: Vec::new() };
    let proof = prove(bytecode, &public_input, &witness, 1);
    (proof, public_input)
}

/// The public input of the unified circuit for one raw batch.
pub open spec fn unified_leaf_public_input<H: Fn(Digest, Digest) -> Digest, B>(
    h: H,
    vm: VmParams,
    bytecode: Bytecode<B>,
    batch: Batch,
) -> Seq<int> {
    let n_vars = point_n_vars(bytecode.log_size as int, vm.n_instruction_columns as int);
    unified_layout(
        chain(h, seq![chain(h, roots(batch.commitments@))]),
        default_claim(n_vars, bytecode.zero_eval@),
        n_vars,
        bound_hash(h, vm, bytecode.hash),
    )
}

/// Prove a batch with the unified circuit; returns the proof and its public input.
pub fn prove_unified_leaf<
    H: Fn(Digest, Digest) -> Digest,
    B,
    P,
    Z: Fn(&Bytecode<B>, &Vec<F>, &Witness, usize) -> P,
>(
    h: &H,
    vm: &VmParams,
    prove: &Z,
    bytecode: &Bytecode<B>,
    batch: &Batch,
    log_inv_rate: usize,
) -> (r: (P, Vec<F>))
    requires
        is_compression(*h),
        covers_first(batch.codewords@),
        sizes_fit(bytecode.log_size as int),
        next_pow2(vm.input_start + unified_leaf_public_input(*h, *vm, *bytecode, *batch).len())
            + 4 + batch_data(*batch).len() <= usize::MAX,
        proves(
            *prove,
            *bytecode,
            unified_leaf_public_input(*h, *vm, *bytecode, *batch),
            unified_leaf_input(
                *batch,
                next_pow2(
                    vm.input_start + unified_leaf_public_input(*h, *vm, *bytecode, *batch).len(),
                ),
            ),
            log_inv_rate,
        ),
    ensures
        fseq(r.1@) == unified_leaf_public_input(*h, *vm, *bytecode, *batch),
        proved(
            *prove,
            *bytecode,
            r.1,
            unified_leaf_input(*batch, next_pow2(vm.input_start + r.1@.len())),
            log_inv_rate,
            r.0,
        ),
{
    let batch_hash = hash_commitments(h, batch.commitments.as_slice());
    let hashes: Vec<Digest> = vec![batch_hash];
    let public_input = build_unified_public_input(h, vm, hashes.as_slice(), bytecode);
    proof {
        assert(digests(hashes@) =~= seq![chain(*h, roots(batch.commitments@))]);
        assert(fseq(public_input@).len() == public_input@.len());
    }
    let memory = build_public_memory(vm, &public_input);
    let private_input = prepare_unified_leaf_private_input(batch, memory.len());
    let witness = Witness { private_input, merkle_paths: Vec::new() };
    let proof = prove(bytecode, &public_input, &witness, log_inv_rate);
    (proof, public_input)
}

/// What the verification of a proof says: nothing, or why it failed.
pub open spec fn reports(outcome: Result<Verified, String>, r: Result<(), String>) -> bool {
    match outcome {
        Ok(_) => r is Ok,
        Err(e) => r is Err && r->Err_0@ == "proof verification failed: "@ + e@,
    }
}

/// Verify a proof against a public input.
pub fn verify_circuit_with_public_input<
    B,
    P,
    V: Fn(&Bytecode<B>, &Vec<F>, &P) -> Result<Verified, String>,
>(verify: &V, bytecode: &Bytecode<B>, public_input: &Vec<F>, proof: &P) -> (r: Result<(), String>)
    requires
        verifies(*verify),
    ensures
        exists|outcome: Result<Verified, String>|
            reports(outcome, r) && #[trigger] call_ensures(
                *verify,
                (bytecode, public_input, proof),
                outcome,
            ),
{
    let outcome = verify(bytecode, public_input, proof);
    let ghost o = outcome;
    match outcome {
        Ok(_) => {
            assert(reports(o, Ok(())));
            Ok(())
        },
        Err(e) => {
            let mut s = String::from_str("proof verification failed: ");
            s.append(e.as_str());
            assert(reports(o, Err(s)));
            Err(s)
        },
    }
}

/// Verify a proof of a batch, given the batch.
pub fn verify_circuit<
    H: Fn(Digest, Digest) -> Digest,
    B,
    P,
    V: Fn(&Bytecode<B>, &Vec<F>, &P) -> Result<Verified, String>,
>(
    h: &H,
    vm: &VmParams,
    verify: &V,
    bytecode: &Bytecode<B>,
    batch: &Batch,
    proof: &P,
) -> (r: Result<(), String>)
    requires
        is_compression(*h),
        verifies(*verify),
    ensures
        exists|pi: Vec<F>, outcome: Result<Verified, String>|
            fseq(pi@) == batch_public_input(*h, *vm, batch.commitments@, Some(bytecode.hash))
                && reports(outcome, r) && #[trigger] call_ensures(
                *verify,
                (bytecode, &pi, proof),
                outcome,
            ),
{
    let public_input = prepare_public_input_with_hash(h, vm, batch, bytecode);
    verify_circuit_with_public_input(verify, bytecode, &public_input, proof)
}

} // verus!
