//! Verification: the proofs of all batches, and the openings at sampled positions.

use crate::batch::BatchProof;
use crate::circuit::{
    airs_ok, circuit_params, compile_das_circuit, compile_unified_das_circuit, compiled, compiles,
    das_replacements, input_fits, unified_compiles, unified_for_own_size, unified_outcome,
    CircuitKind, CompileError,
};
use crate::commitment::{fits_leaf, opens, verify_opening_epl};
use crate::ext::fseq;
use crate::field::F;
use crate::hash::{is_compression, leaf_len};
use crate::inputs::{batch_public_input, build_verifier_public_input, roots};
use crate::machine::{rates_ok, MachineParams, WhirSummary};
use crate::numeric::log2;
use crate::pipeline::DasProof;
use crate::proving::{verifies, verify_circuit_with_public_input};
use crate::text::Replacements;
use crate::types::{digest_eq, digest_view, Commitment, Digest, Opening};
use crate::vm::{Bytecode, Verified, VmParams};
use vstd::prelude::*;

verus! {

/// Result of verification.
#[derive(Debug)]
pub enum VerifyResult {
    /// All checks passed.
    Accept,
    /// The proof of a batch failed verification; or, with the index past the last proof, the
    /// proofs leave a commitment uncovered.
    RejectProof { batch_index: usize },
    /// An opening failed verification.
    RejectOpening { codeword_index: usize, position: usize },
}

/// The opening verifies against the commitment that it is for.
pub open spec fn opening_verifies<H: Fn(Digest, Digest) -> Digest>(
    h: H,
    commitments: Seq<Commitment>,
    n: int,
    epl: int,
    o: (usize, Opening),
) -> bool {
    opens(h, commitments[o.0 as int]@, o.1, epl, log2(n / epl))
}

/// The first openings all verify.
pub open spec fn openings_verify<H: Fn(Digest, Digest) -> Digest>(
    h: H,
    commitments: Seq<Commitment>,
    n: int,
    epl: int,
    openings: Seq<(usize, Opening)>,
    count: int,
) -> bool {
    forall|i: int|
        0 <= i < count ==> opening_verifies(h, commitments, n, epl, #[trigger] openings[i])
}

/// The opening is for one of the commitments, and if it has the lengths of a leaf and its
/// path, the leaf can be hashed.
pub open spec fn checkable(
    commitments: Seq<Commitment>,
    n: int,
    epl: int,
    o: (usize, Opening),
) -> bool {
    &&& o.0 < commitments.len()
    &&& fits_leaf(o.1, epl, log2(n / epl)) ==> leaf_len(epl)
}

/// Every opening up to the first that does not verify can be checked.
pub open spec fn openings_checkable<H: Fn(Digest, Digest) -> Digest>(
    h: H,
    commitments: Seq<Commitment>,
    n: int,
    epl: int,
    openings: Seq<(usize, Opening)>,
) -> bool {
    &&& openings.len() > 0 ==> 0 < epl <= n
    &&& forall|i: int|
        0 <= i < openings.len() && openings_verify(h, commitments, n, epl, openings, i)
            ==> checkable(commitments, n, epl, #[trigger] openings[i])
}

/// `r` is the verdict on the openings: that on the first that does not verify, if any.
pub open spec fn openings_verdict<H: Fn(Digest, Digest) -> Digest>(
    h: H,
    commitments: Seq<Commitment>,
    n: int,
    epl: int,
    openings: Seq<(usize, Opening)>,
    r: VerifyResult,
) -> bool {
    match r {
        VerifyResult::Accept => openings_verify(
            h,
            commitments,
            n,
            epl,
            openings,
            openings.len() as int,
        ),
        VerifyResult::RejectProof { batch_index } => false,
        VerifyResult::RejectOpening { codeword_index, position } => exists|i: int|
            {
                &&& 0 <= i < openings.len()
                &&& openings_verify(h, commitments, n, epl, openings, i)
                &&& !opening_verifies(h, commitments, n, epl, #[trigger] openings[i])
                &&& codeword_index == openings[i].0
                &&& position == openings[i].1.leaf_index
            },
    }
}

/// Verify the openings, up to the first that fails.
pub fn verify_openings<H: Fn(Digest, Digest) -> Digest>(
    h: &H,
    commitments: &Vec<Commitment>,
    codeword_length: usize,
    evals_per_leaf: usize,
    openings: &[(usize, Opening)],
) -> (r: VerifyResult)
    requires
        is_compression(*h),
        openings_checkable(
            *h,
            commitments@,
            codeword_length as int,
            evals_per_leaf as int,
            openings@,
        ),
    ensures
        openings_verdict(
            *h,
            commitments@,
            codeword_length as int,
            evals_per_leaf as int,
            openings@,
            r,
        ),
{
    let mut i: usize = 0;
    let ghost (n, epl) = (codeword_length as int, evals_per_leaf as int);
    while i < openings.len()
        invariant
            is_compression(*h),
            n == codeword_length,
            epl == evals_per_leaf,
            openings_checkable(*h, commitments@, n, epl, openings@),
            i <= openings@.len(),
            openings_verify(*h, commitments@, n, epl, openings@, i as int),
        decreases openings@.len() - i,
    {
        assert(checkable(commitments@, n, epl, openings@[i as int]));
        let codeword_index: usize = openings[i].0;
        let commitment = &commitments[codeword_index];
        if !verify_opening_epl(h, commitment, &openings[i].1, codeword_length, evals_per_leaf) {
            assert(!opening_verifies(*h, commitments@, n, epl, openings@[i as int]));
            return VerifyResult::RejectOpening {
                codeword_index,
                position: openings[i].1.leaf_index,
            };
        }
        i = i + 1;
    }
    VerifyResult::Accept
}

/// Verification of the batch's proof may give `ok`.
pub open spec fn proof_checked<
    H: Fn(Digest, Digest) -> Digest,
    B,
    P,
    V: Fn(&Bytecode<B>, &Vec<F>, &P) -> Result<Verified, String>,
>(h: H, vm: VmParams, verify: V, bytecode: Bytecode<B>, bp: BatchProof<P>, ok: bool) -> bool {
    exists|public_input: Vec<F>, outcome: Result<Verified, String>|
        fseq(public_input@) == batch_public_input(
            h,
            vm,
            bp.commitments@,
            Some(bytecode.hash),
        ) && outcome is Ok == ok && #[trigger] call_ensures(
            verify,
            (&bytecode, &public_input, &bp.proof->Some_0),
            outcome,
        )
}

/// The first proofs all verify, as far as there are any.
pub open spec fn proofs_verify<
    H: Fn(Digest, Digest) -> Digest,
    B,
    P,
    V: Fn(&Bytecode<B>, &Vec<F>, &P) -> Result<Verified, String>,
>(
    h: H,
    vm: VmParams,
    verify: V,
    bytecode: Bytecode<B>,
    proofs: Seq<BatchProof<P>>,
    count: int,
) -> bool {
    forall|i: int|
        0 <= i < count && (#[trigger] proofs[i]).proof is Some ==> proof_checked(
            h,
            vm,
            verify,
            bytecode,
            proofs[i],
            true,
        )
}

/// `r` is the first proof that does not verify, if any.
pub open spec fn first_rejected<
    H: Fn(Digest, Digest) -> Digest,
    B,
    P,
    V: Fn(&Bytecode<B>, &Vec<F>, &P) -> Result<Verified, String>,
>(
    h: H,
    vm: VmParams,
    verify: V,
    bytecode: Bytecode<B>,
    proofs: Seq<BatchProof<P>>,
    r: Option<usize>,
) -> bool {
    match r {
        Some(j) => {
            &&& j < proofs.len()
            &&& proofs[j as int].proof is Some
            &&& proof_checked(h, vm, verify, bytecode, proofs[j as int], false)
            &&& proofs_verify(h, vm, verify, bytecode, proofs, j as int)
        },
        None => proofs_verify(h, vm, verify, bytecode, proofs, proofs.len() as int),
    }
}

/// Verify the proofs of the batches, up to the first that fails.
pub fn verify_batch_proofs<
    H: Fn(Digest, Digest) -> Digest,
    B,
    P,
    V: Fn(&Bytecode<B>, &Vec<F>, &P) -> Result<Verified, String>,
>(h: &H, vm: &VmParams, verify: &V, bytecode: &Bytecode<B>, proofs: &Vec<BatchProof<P>>) -> (r:
    Option<usize>)
    requires
        is_compression(*h),
        verifies(*verify),
    ensures
        first_rejected(*h, *vm, *verify, *bytecode, proofs@, r),
{
    let mut j: usize = 0;
    while j < proofs.len()
        invariant
            is_compression(*h),
            verifies(*verify),
            j <= proofs@.len(),
            proofs_verify(*h, *vm, *verify, *bytecode, proofs@, j as int),
        decreases proofs@.len() - j,
    {
        let bp = &proofs[j];
        let carried = &bp.proof;
        match carried {
            Some(p) => {
                let public_input = build_verifier_public_input(
                    h,
                    vm,
                    bp.commitments.as_slice(),
                    bytecode,
                );
                let result = verify_circuit_with_public_input(verify, bytecode, &public_input, p);
                let ok: bool = match result {
                    Ok(_) => true,
                    Err(_) => false,
                };
                assert(proof_checked(*h, *vm, *verify, *bytecode, *bp, ok));
                if !ok {
                    return Some(j);
                }
            },
            None => {},
        }
        j = j + 1;
    }
    None
}

/// One of the batches has a proof.
pub open spec fn any_proof<P>(proofs: Seq<BatchProof<P>>) -> bool {
    exists|i: int| 0 <= i < proofs.len() && (#[trigger] proofs[i]).proof is Some
}

/// Whether one of the batches has a proof.
pub fn has_any_proof<P>(proofs: &Vec<BatchProof<P>>) -> (r: bool)
    ensures
        r == any_proof(proofs@),
{
    let mut i: usize = 0;
    while i < proofs.len()
        invariant
            i <= proofs@.len(),
            forall|k: int| 0 <= k < i ==> (#[trigger] proofs@[k]).proof is None,
        decreases proofs@.len() - i,
    {
        if proofs[i].proof.is_some() {
            assert(proofs@[i as int].proof is Some);
            return true;
        }
        i = i + 1;
    }
    false
}

// Coverage of the commitments.

/// The root is among those of the listed commitments.
pub open spec fn lists(listed: Seq<Commitment>, root: Seq<int>) -> bool {
    roots(listed).contains(root)
}

/// Every commitment is among the listed ones.
pub open spec fn lists_all(listed: Seq<Commitment>, commitments: Seq<Commitment>) -> bool {
    forall|i: int| 0 <= i < commitments.len() ==> lists(listed, (#[trigger] commitments[i])@)
}

/// The root is among those of the commitments of batch `j`.
pub open spec fn covered_by<P>(proofs: Seq<BatchProof<P>>, j: int, root: Seq<int>) -> bool {
    0 <= j < proofs.len() && lists(proofs[j].commitments@, root)
}

/// The root is among those of the commitments of one of the batches.
pub open spec fn is_covered<P>(proofs: Seq<BatchProof<P>>, root: Seq<int>) -> bool {
    exists|j: int| covered_by(proofs, j, root)
}

/// The batches together cover the commitments: each is among those of one of the batches.
pub open spec fn covers<P>(proofs: Seq<BatchProof<P>>, commitments: Seq<Commitment>) -> bool {
    forall|i: int| 0 <= i < commitments.len() ==> is_covered(proofs, (#[trigger] commitments[i])@)
}

/// Whether a root is among those of the listed commitments.
pub fn is_listed(listed: &Vec<Commitment>, root: &Digest) -> (r: bool)
    ensures
        r == lists(listed@, digest_view(*root)),
{
    let mut i: usize = 0;
    while i < listed.len()
        invariant
            i <= listed@.len(),
            forall|k: int| 0 <= k < i ==> (#[trigger] roots(listed@)[k]) != digest_view(*root),
        decreases listed@.len() - i,
    {
        if digest_eq(&listed[i].root, root) {
            assert(roots(listed@)[i as int] == digest_view(*root));
            return true;
        }
        i = i + 1;
    }
    false
}

/// Whether every commitment is among the listed ones.
pub fn all_listed(listed: &Vec<Commitment>, commitments: &Vec<Commitment>) -> (r: bool)
    ensures
        r == lists_all(listed@, commitments@),
{
    let mut i: usize = 0;
    while i < commitments.len()
        invariant
            i <= commitments@.len(),
            forall|k: int| 0 <= k < i ==> lists(listed@, (#[trigger] commitments@[k])@),
        decreases commitments@.len() - i,
    {
        if !is_listed(listed, &commitments[i].root) {
            assert(!lists(listed@, commitments@[i as int]@));
            return false;
        }
        i = i + 1;
    }
    true
}

/// Whether a root is among those of the commitments of one of the batches.
fn is_in_batch<P>(proofs: &Vec<BatchProof<P>>, root: &Digest) -> (r: bool)
    ensures
        r == is_covered(proofs@, digest_view(*root)),
{
    let mut j: usize = 0;
    while j < proofs.len()
        invariant
            j <= proofs@.len(),
            forall|k: int| 0 <= k < j ==> !covered_by(proofs@, k, digest_view(*root)),
        decreases proofs@.len() - j,
    {
        if is_listed(&proofs[j].commitments, root) {
            assert(covered_by(proofs@, j as int, digest_view(*root)));
            return true;
        }
        j = j + 1;
    }
    false
}

/// Whether every commitment is among those of one of the batches.
pub fn all_covered<P>(proofs: &Vec<BatchProof<P>>, commitments: &Vec<Commitment>) -> (r: bool)
    ensures
        r == covers(proofs@, commitments@),
{
    let mut i: usize = 0;
    while i < commitments.len()
        invariant
            i <= commitments@.len(),
            forall|k: int| 0 <= k < i ==> is_covered(proofs@, (#[trigger] commitments@[k])@),
        decreases commitments@.len() - i,
    {
        if !is_in_batch(proofs, &commitments[i].root) {
            assert(!is_covered(proofs@, commitments@[i as int]@));
            return false;
        }
        i = i + 1;
    }
    true
}

/// `bytecode` is the batch circuit that a proof is verified with: the given one, or else
/// what `compile` gives.
pub open spec fn verifier_bytecode<B, P, C: Fn(CircuitKind, Replacements) -> Bytecode<B>>(
    vm: VmParams,
    compile: C,
    das_proof: DasProof<P>,
    given: Option<Bytecode<B>>,
    bytecode: Bytecode<B>,
) -> bool {
    match given {
        Some(b) => bytecode == b,
        None => compiled(
            compile,
            CircuitKind::Batch,
            das_replacements(
                vm,
                das_proof.batch_size as int,
                das_proof.codeword_length as int,
                das_proof.evals_per_leaf as int,
                das_proof.degree as int,
            ),
            bytecode,
        ),
    }
}

/// `r` is the verdict when the proofs are verified with the given circuit.
pub open spec fn verdict<
    H: Fn(Digest, Digest) -> Digest,
    B,
    P,
    V: Fn(&Bytecode<B>, &Vec<F>, &P) -> Result<Verified, String>,
>(
    h: H,
    vm: VmParams,
    verify: V,
    bytecode: Bytecode<B>,
    das_proof: DasProof<P>,
    openings: Seq<(usize, Opening)>,
    r: VerifyResult,
) -> bool {
    let proofs = das_proof.aggregated_proof.batch_proofs@;
    ||| r is RejectProof && first_rejected(h, vm, verify, bytecode, proofs, Some(r->batch_index))
    ||| first_rejected(h, vm, verify, bytecode, proofs, None) && batches_verdict(
        h,
        das_proof,
        openings,
        r,
    )
}

/// `r` is the verdict on openings of the codewords that a proof is for.
pub open spec fn das_openings_verdict<H: Fn(Digest, Digest) -> Digest, P>(
    h: H,
    das_proof: DasProof<P>,
    openings: Seq<(usize, Opening)>,
    r: VerifyResult,
) -> bool {
    openings_verdict(
        h,
        das_proof.commitments@,
        das_proof.codeword_length as int,
        das_proof.evals_per_leaf as int,
        openings,
        r,
    )
}

/// `r` is the verdict once `count` proofs have been verified: that on the openings, but where
/// it would accept with a commitment left uncovered, the index past the last proof is
/// rejected.
pub open spec fn covered_verdict<H: Fn(Digest, Digest) -> Digest, P>(
    h: H,
    das_proof: DasProof<P>,
    openings: Seq<(usize, Opening)>,
    covered: bool,
    count: int,
    r: VerifyResult,
) -> bool {
    match r {
        VerifyResult::RejectProof { batch_index } => {
            &&& !covered
            &&& batch_index == count
            &&& das_openings_verdict(h, das_proof, openings, VerifyResult::Accept)
        },
        _ => (r is Accept ==> covered) && das_openings_verdict(h, das_proof, openings, r),
    }
}

/// `r` is the verdict once the proofs of all batches have been verified.
pub open spec fn batches_verdict<H: Fn(Digest, Digest) -> Digest, P>(
    h: H,
    das_proof: DasProof<P>,
    openings: Seq<(usize, Opening)>,
    r: VerifyResult,
) -> bool {
    let proofs = das_proof.aggregated_proof.batch_proofs@;
    covered_verdict(
        h,
        das_proof,
        openings,
        covers(proofs, das_proof.commitments@),
        proofs.len() as int,
        r,
    )
}

/// Verify the openings, and where all verify, that the commitments are covered.
fn verify_covered_openings<H: Fn(Digest, Digest) -> Digest, P>(
    h: &H,
    das_proof: &DasProof<P>,
    openings: &[(usize, Opening)],
    covered: bool,
    count: usize,
) -> (r: VerifyResult)
    requires
        is_compression(*h),
        das_openings_checkable(*h, *das_proof, openings@),
    ensures
        covered_verdict(*h, *das_proof, openings@, covered, count as int, r),
{
    let result = verify_openings(
        h,
        &das_proof.commitments,
        das_proof.codeword_length,
        das_proof.evals_per_leaf,
        openings,
    );
    match result {
        VerifyResult::Accept => {
            if covered {
                VerifyResult::Accept
            } else {
                VerifyResult::RejectProof { batch_index: count }
            }
        },
        other => other,
    }
}

/// The openings of the codewords that a proof is for can be checked.
pub open spec fn das_openings_checkable<H: Fn(Digest, Digest) -> Digest, P>(
    h: H,
    das_proof: DasProof<P>,
    openings: Seq<(usize, Opening)>,
) -> bool {
    openings_checkable(
        h,
        das_proof.commitments@,
        das_proof.codeword_length as int,
        das_proof.evals_per_leaf as int,
        openings,
    )
}

/// `r` is the verdict on a proof and openings: first the proofs of the batches, as far as
/// there are any, then the openings, and then whether the batches cover the commitments.
pub open spec fn das_verdict<
    H: Fn(Digest, Digest) -> Digest,
    B,
    P,
    C: Fn(CircuitKind, Replacements) -> Bytecode<B>,
    V: Fn(&Bytecode<B>, &Vec<F>, &P) -> Result<Verified, String>,
>(
    h: H,
    vm: VmParams,
    compile: C,
    verify: V,
    das_proof: DasProof<P>,
    openings: Seq<(usize, Opening)>,
    given: Option<Bytecode<B>>,
    r: VerifyResult,
) -> bool {
    let proofs = das_proof.aggregated_proof.batch_proofs@;
    if any_proof(proofs) {
        exists|bytecode: Bytecode<B>|
            verifier_bytecode(vm, compile, das_proof, given, bytecode) && #[trigger] verdict(
                h,
                vm,
                verify,
                bytecode,
                das_proof,
                openings,
                r,
            )
    } else {
        batches_verdict(h, das_proof, openings, r)
    }
}

/// What verification needs: where there are proofs of batches, a function that verifies
/// them, and the circuit or a way to compile it.
pub open spec fn das_checkable<
    B,
    P,
    C: Fn(CircuitKind, Replacements) -> Bytecode<B>,
    V: Fn(&Bytecode<B>, &Vec<F>, &P) -> Result<Verified, String>,
>(
    vm: VmParams,
    compile: C,
    verify: V,
    das_proof: DasProof<P>,
    given: Option<Bytecode<B>>,
) -> bool {
    any_proof(das_proof.aggregated_proof.batch_proofs@) ==> {
        &&& verifies(verify)
        &&& given is None ==> circuit_params(
            das_proof.codeword_length as int,
            das_proof.evals_per_leaf as int,
            das_proof.degree as int,
        ) && compiles(
            compile,
            CircuitKind::Batch,
            das_replacements(
                vm,
                das_proof.batch_size as int,
                das_proof.codeword_length as int,
                das_proof.evals_per_leaf as int,
                das_proof.degree as int,
            ),
        )
    }
}

/// Verify a proof with a circuit that is compiled already, if it is given: the proofs of all
/// batches, the openings, and that each commitment is in some batch. `openings` holds the
/// index of a codeword with each opening.
pub fn verify_das_with_bytecode<
    H: Fn(Digest, Digest) -> Digest,
    B,
    P,
    C: Fn(CircuitKind, Replacements) -> Bytecode<B>,
    V: Fn(&Bytecode<B>, &Vec<F>, &P) -> Result<Verified, String>,
>(
    h: &H,
    vm: &VmParams,
    compile: &C,
    verify: &V,
    das_proof: &DasProof<P>,
    openings: &[(usize, Opening)],
    bytecode: Option<Bytecode<B>>,
) -> (r: VerifyResult)
    requires
        is_compression(*h),
        das_checkable(*vm, *compile, *verify, *das_proof, bytecode),
        das_openings_checkable(*h, *das_proof, openings@),
    ensures
        das_verdict(*h, *vm, *compile, *verify, *das_proof, openings@, bytecode, r),
{
    let proofs = &das_proof.aggregated_proof.batch_proofs;
    let ghost given = bytecode;
    let count: usize = proofs.len();
    let covered: bool = all_covered(proofs, &das_proof.commitments);
    if has_any_proof(proofs) {
        let program: Bytecode<B> = match bytecode {
            Some(b) => b,
            None => compile_das_circuit(
                vm,
                compile,
                das_proof.batch_size,
                das_proof.codeword_length,
                das_proof.evals_per_leaf,
                das_proof.degree,
            ),
        };
        assert(verifier_bytecode(*vm, *compile, *das_proof, given, program));
        let rejected = verify_batch_proofs(h, vm, verify, &program, proofs);
        let result = match rejected {
            Some(batch_index) => VerifyResult::RejectProof { batch_index },
            None => verify_covered_openings(h, das_proof, openings, covered, count),
        };
        assert(verdict(*h, *vm, *verify, program, *das_proof, openings@, result));
        result
    } else {
        verify_covered_openings(h, das_proof, openings, covered, count)
    }
}

/// Verify a proof: the proofs of all batches, the openings, and that each commitment is in
/// some batch.
pub fn verify_das<
    H: Fn(Digest, Digest) -> Digest,
    B,
    P,
    C: Fn(CircuitKind, Replacements) -> Bytecode<B>,
    V: Fn(&Bytecode<B>, &Vec<F>, &P) -> Result<Verified, String>,
>(
    h: &H,
    vm: &VmParams,
    compile: &C,
    verify: &V,
    das_proof: &DasProof<P>,
    openings: &[(usize, Opening)],
) -> (r: VerifyResult)
    requires
        is_compression(*h),
        das_checkable(*vm, *compile, *verify, *das_proof, None),
        das_openings_checkable(*h, *das_proof, openings@),
    ensures
        das_verdict(*h, *vm, *compile, *verify, *das_proof, openings@, None, r),
{
    verify_das_with_bytecode(h, vm, compile, verify, das_proof, openings, None)
}

/// `r` is the verdict on a recursive proof with the given circuit, and on the openings.
pub open spec fn unified_verdict<
    H: Fn(Digest, Digest) -> Digest,
    B,
    P,
    V: Fn(&Bytecode<B>, &Vec<F>, &P) -> Result<Verified, String>,
>(
    h: H,
    verify: V,
    bytecode: Bytecode<B>,
    das_proof: DasProof<P>,
    openings: Seq<(usize, Opening)>,
    r: VerifyResult,
) -> bool {
    let agg = das_proof.aggregated_proof;
    exists|outcome: Result<Verified, String>|
        #[trigger] call_ensures(
            verify,
            (&bytecode, &agg.public_input->Some_0, &agg.proof->Some_0),
            outcome,
        ) && match outcome {
            Ok(_) => covered_verdict(
                h,
                das_proof,
                openings,
                lists_all(agg.commitments@, das_proof.commitments@),
                1,
                r,
            ),
            Err(_) => r == (VerifyResult::RejectProof { batch_index: 0 }),
        }
}

/// The aggregated proof is a recursive proof with its public input.
pub open spec fn is_recursive<P>(das_proof: DasProof<P>) -> bool {
    das_proof.aggregated_proof.proof is Some && das_proof.aggregated_proof.public_input is Some
}

/// `r` is the verdict on a recursive proof with the unified circuit, and on the openings.
pub open spec fn unified_das_verdict<
    H: Fn(Digest, Digest) -> Digest,
    B,
    P,
    C: Fn(CircuitKind, Replacements) -> Bytecode<B>,
    W: Fn(usize, usize) -> WhirSummary,
    S: Fn(usize) -> usize,
    V: Fn(&Bytecode<B>, &Vec<F>, &P) -> Result<Verified, String>,
>(
    h: H,
    vm: VmParams,
    m: MachineParams,
    compile: C,
    whir: W,
    min_stacked: S,
    verify: V,
    das_proof: DasProof<P>,
    openings: Seq<(usize, Opening)>,
    r: VerifyResult,
) -> bool {
    exists|bytecode: Bytecode<B>|
        unified_for_own_size(
            vm,
            m,
            compile,
            whir,
            min_stacked,
            das_replacements(
                vm,
                das_proof.batch_size as int,
                das_proof.codeword_length as int,
                das_proof.evals_per_leaf as int,
                das_proof.degree as int,
            ),
            bytecode,
        ) && #[trigger] unified_verdict(h, verify, bytecode, das_proof, openings, r)
}

/// Verify a proof that the unified circuit aggregated: the one recursive proof, which must be
/// there, the openings, and that the aggregated proof lists each commitment among those that
/// it covers. Where the circuit does not compile, says why.
pub fn verify_das_unified<
    H: Fn(Digest, Digest) -> Digest,
    B,
    P,
    C: Fn(CircuitKind, Replacements) -> Bytecode<B>,
    W: Fn(usize, usize) -> WhirSummary,
    S: Fn(usize) -> usize,
    V: Fn(&Bytecode<B>, &Vec<F>, &P) -> Result<Verified, String>,
>(
    h: &H,
    vm: &VmParams,
    m: &MachineParams,
    compile: &C,
    whir: &W,
    min_stacked: &S,
    verify: &V,
    das_proof: &DasProof<P>,
    openings: &[(usize, Opening)],
    attempts: usize,
) -> (r: Result<VerifyResult, CompileError>)
    requires
        is_compression(*h),
        das_openings_checkable(*h, *das_proof, openings@),
        is_recursive(*das_proof) ==> {
            &&& circuit_params(
                das_proof.codeword_length as int,
                das_proof.evals_per_leaf as int,
                das_proof.degree as int,
            )
            &&& input_fits(*vm)
            &&& airs_ok(*m)
            &&& rates_ok(*m)
            &&& unified_compiles(
                *vm,
                *m,
                *compile,
                *whir,
                *min_stacked,
                das_replacements(
                    *vm,
                    das_proof.batch_size as int,
                    das_proof.codeword_length as int,
                    das_proof.evals_per_leaf as int,
                    das_proof.degree as int,
                ),
                attempts as int,
            )
            &&& verifies(*verify)
        },
    ensures
        !is_recursive(*das_proof) ==> r is Ok && r->Ok_0 == (VerifyResult::RejectProof {
            batch_index: 0,
        }),
        is_recursive(*das_proof) && r is Ok ==> unified_das_verdict(
            *h,
            *vm,
            *m,
            *compile,
            *whir,
            *min_stacked,
            *verify,
            *das_proof,
            openings@,
            r->Ok_0,
        ),
        is_recursive(*das_proof) && attempts == 0 ==> r is Err,
        is_recursive(*das_proof) && r is Err ==> unified_outcome(
            *vm,
            *m,
            *compile,
            *whir,
            *min_stacked,
            das_replacements(
                *vm,
                das_proof.batch_size as int,
                das_proof.codeword_length as int,
                das_proof.evals_per_leaf as int,
                das_proof.degree as int,
            ),
            attempts as int,
            Err::<Bytecode<B>, CompileError>(r->Err_0),
        ),
{
    let agg = &das_proof.aggregated_proof;
    match (&agg.proof, &agg.public_input) {
        (Some(p), Some(public_input)) => {
            let covered: bool = all_listed(&agg.commitments, &das_proof.commitments);
            match compile_unified_das_circuit(
                vm,
                m,
                compile,
                whir,
                min_stacked,
                das_proof.batch_size,
                das_proof.codeword_length,
                das_proof.evals_per_leaf,
                das_proof.degree,
                attempts,
            ) {
                Ok(bytecode) => {
                    let result = verify_circuit_with_public_input(
                        verify,
                        &bytecode,
                        public_input,
                        p,
                    );
                    let v = match result {
                        Ok(_) => verify_covered_openings(h, das_proof, openings, covered, 1),
                        Err(_) => VerifyResult::RejectProof { batch_index: 0 },
                    };
                    assert(unified_verdict(*h, *verify, bytecode, *das_proof, openings@, v));
                    assert(unified_das_verdict(
                        *h,
                        *vm,
                        *m,
                        *compile,
                        *whir,
                        *min_stacked,
                        *verify,
                        *das_proof,
                        openings@,
                        v,
                    ));
                    Ok(v)
                },
                Err(e) => Err(e),
            }
        },
        _ => Ok(VerifyResult::RejectProof { batch_index: 0 }),
    }
}

} // verus!
