//! Proofs of batches.
//!
//! Each prover takes a batch of codewords with their commitments, derives challenges,
//! combines the codewords and folds the combination, either natively or inside the
//! virtual machine.

use crate::code::fold_all;
use crate::ext::{eseq, ext_of, fseq, Ext, EF};
use crate::field::{F, P as MODULUS};
use crate::hash::is_compression;
use crate::inputs::batch_public_input;
use crate::numeric::{ilog2, lemma_pow2_log2, log2};
use crate::polynomial::{domain_generator, domain_size};
use crate::proving::{proved, proves_circuit};
use crate::rlc::{compute_rlc, cw_views, derive_challenge, rlc, same_length};
use crate::slices::copy_slice;
use crate::types::{Batch, Codeword, Commitment, Digest};
use crate::vm::{Bytecode, VmParams, Witness};
use crate::witness::{batch_regions, covers_first};
use vstd::arithmetic::power2::is_pow2;
use vstd::prelude::*;

verus! {

/// The output of a single prover.
#[derive(Debug)]
pub struct BatchProof<P> {
    /// The commitments covered by this proof.
    pub commitments: Vec<Commitment>,
    /// The proof; none in reference mode.
    pub proof: Option<P>,
    /// The public input used for proving; none in reference mode.
    pub public_input: Option<Vec<F>>,
}

/// `b` is what cloning an optional proof may give for `a`.
pub open spec fn proof_cloned<P: Clone>(a: Option<P>, b: Option<P>) -> bool {
    match (a, b) {
        (Some(x), Some(y)) => cloned(x, y),
        (None, None) => true,
        _ => false,
    }
}

/// Both public inputs hold the same elements.
pub open spec fn same_input(a: Option<Vec<F>>, b: Option<Vec<F>>) -> bool {
    match (a, b) {
        (Some(x), Some(y)) => x@ == y@,
        (None, None) => true,
        _ => false,
    }
}

/// `b` is what cloning a batch proof may give for `a`.
pub open spec fn batch_proof_cloned<P: Clone>(a: BatchProof<P>, b: BatchProof<P>) -> bool {
    &&& b.commitments@ == a.commitments@
    &&& proof_cloned(a.proof, b.proof)
    &&& same_input(a.public_input, b.public_input)
}

/// Clone an optional proof.
pub fn clone_proof<P: Clone>(p: &Option<P>) -> (r: Option<P>)
    ensures
        proof_cloned(*p, r),
{
    match p {
        Some(x) => Some(x.clone()),
        None => None,
    }
}

/// Copy an optional public input.
pub fn copy_input(input: &Option<Vec<F>>) -> (r: Option<Vec<F>>)
    ensures
        same_input(*input, r),
{
    match input {
        Some(v) => Some(copy_slice(v.as_slice())),
        None => None,
    }
}

impl<P: Clone> Clone for BatchProof<P> {
    fn clone(&self) -> (r: Self)
        ensures
            batch_proof_cloned(*self, r),
    {
        BatchProof {
            commitments: copy_slice(self.commitments.as_slice()),
            proof: clone_proof(&self.proof),
            public_input: copy_input(&self.public_input),
        }
    }
}

/// A batch that can be proved: it has one commitment and one challenge for each of its
/// codewords, and the length of the first is a power of two.
pub open spec fn provable(batch: Batch) -> bool {
    &&& batch.codewords@.len() > 0
    &&& batch.codewords@.len() == batch.commitments@.len()
    &&& batch.codewords@.len() == batch.challenges@.len()
    &&& is_pow2(batch.codewords@[0]@.len() as int)
}

/// The folding challenge of round `i` in reference mode: `i + 1` in every coordinate.
pub open spec fn reference_challenge(i: int) -> Ext {
    ext_of(Seq::new(5, |k: int| (i + 1) % MODULUS as int))
}

/// The folding challenges in reference mode.
pub open spec fn reference_challenges(rounds: nat) -> Seq<Ext> {
    Seq::new(rounds, |i: int| reference_challenge(i))
}

/// Build the folding challenges of reference mode.
pub fn build_reference_challenges(rounds: usize) -> (r: Vec<EF>)
    ensures
        eseq(r@) == reference_challenges(rounds as nat),
{
    let mut out: Vec<EF> = Vec::with_capacity(rounds);
    let mut i: usize = 0;
    while i < rounds
        invariant
            i <= rounds,
            eseq(out@) == reference_challenges(i as nat),
        decreases rounds - i,
    {
        let c = F::from_usize(i + 1);
        let seed: [F; 5] = [c, c, c, c, c];
        let ghost before = out@;
        out.push(EF::from_basis_coefficients_slice(&seed).unwrap());
        proof {
            assert(fseq(seed@) =~= Seq::new(5, |k: int| (i + 1) % MODULUS as int));
            assert(eseq(out@) =~= eseq(before).push(reference_challenge(i as int)));
            assert(reference_challenges((i + 1) as nat) =~= reference_challenges(i as nat).push(
                reference_challenge(i as int),
            ));
        }
        i = i + 1;
    }
    out
}

/// Combine a batch's codewords and fold the combination to a constant with the
/// challenges of reference mode.
pub fn fold_batch(batch: &Batch) -> (r: EF)
    requires
        provable(*batch),
        same_length(batch.codewords@, batch.codewords@[0]@.len() as int),
        domain_size(batch.codewords@[0]@.len() as int),
    ensures
        fold_all(
            rlc(
                cw_views(batch.codewords@),
                eseq(batch.challenges@),
                batch.codewords@[0]@.len(),
            ),
            reference_challenges(log2(batch.codewords@[0]@.len() as int)),
            domain_generator(batch.codewords@[0]@.len() as int),
        ) == seq![r@],
{
    let n: usize = batch.codewords[0].len();
    let combination = compute_rlc(batch.codewords.as_slice(), batch.challenges.as_slice());
    proof {
        lemma_pow2_log2(n as int);
        assert(eseq(combination@).len() == combination@.len());
    }
    let rounds: usize = ilog2(n);
    let challenges = build_reference_challenges(rounds);
    assert(eseq(challenges@).len() == challenges@.len());
    crate::fri::fri_fold_evaluations(combination.as_slice(), challenges.as_slice())
}

/// Prove a batch in reference mode: combine and fold natively, with no proof.
pub fn prove_batch<P>(batch: &Batch) -> (r: BatchProof<P>)
    requires
        provable(*batch),
        same_length(batch.codewords@, batch.codewords@[0]@.len() as int),
        domain_size(batch.codewords@[0]@.len() as int),
    ensures
        r.commitments@ == batch.commitments@,
        r.proof is None,
        r.public_input is None,
{
    let _constant = fold_batch(batch);
    BatchProof {
        commitments: copy_slice(batch.commitments.as_slice()),
        proof: None,
        public_input: None,
    }
}

/// `bp` is the proof of a batch by the batch circuit.
pub open spec fn batch_proved<
    H: Fn(Digest, Digest) -> Digest,
    B,
    P,
    Z: Fn(&Bytecode<B>, &Vec<F>, &Witness, usize) -> P,
>(h: H, vm: VmParams, prove: Z, bytecode: Bytecode<B>, batch: Batch, bp: BatchProof<P>) -> bool {
    &&& bp.commitments@ == batch.commitments@
    &&& bp.proof is Some
    &&& bp.public_input is Some
    &&& fseq(bp.public_input->Some_0@) == batch_public_input(
        h,
        vm,
        batch.commitments@,
        Some(bytecode.hash),
    )
    &&& proved(
        prove,
        bytecode,
        bp.public_input->Some_0,
        batch_regions(batch),
        1,
        bp.proof->Some_0,
    )
}

/// Prove a batch inside the virtual machine.
pub fn prove_batch_zkvm<
    H: Fn(Digest, Digest) -> Digest,
    B,
    P,
    Z: Fn(&Bytecode<B>, &Vec<F>, &Witness, usize) -> P,
>(
    h: &H,
    vm: &VmParams,
    prove: &Z,
    batch: &Batch,
    bytecode: &Bytecode<B>,
    degree: usize,
) -> (r: BatchProof<P>)
    requires
        is_compression(*h),
        provable(*batch),
        covers_first(batch.codewords@),
        proves_circuit(*h, *vm, *prove, *bytecode, *batch),
    ensures
        batch_proved(*h, *vm, *prove, *bytecode, *batch, r),
{
    let (proof, public_input) = crate::proving::prove_circuit(
        h,
        vm,
        prove,
        bytecode,
        batch,
        degree,
    );
    BatchProof {
        commitments: copy_slice(batch.commitments.as_slice()),
        proof: Some(proof),
        public_input: Some(public_input),
    }
}

/// The challenges derived from commitments.
pub open spec fn derived_challenges(commitments: Seq<Commitment>) -> Seq<Ext> {
    Seq::new(commitments.len(), |i: int| ext_of(commitments[i]@))
}

/// Prepare a batch from codewords and their commitments.
pub fn prepare_batch(
    indices: Vec<usize>,
    codewords: Vec<Codeword>,
    commitments: Vec<Commitment>,
) -> (r: Batch)
    ensures
        r.indices@ == indices@,
        r.codewords@ == codewords@,
        r.commitments@ == commitments@,
        eseq(r.challenges@) == derived_challenges(commitments@),
{
    let mut challenges: Vec<EF> = Vec::with_capacity(commitments.len());
    let mut i: usize = 0;
    while i < commitments.len()
        invariant
            i <= commitments@.len(),
            challenges@.len() == i,
            forall|k: int|
                0 <= k < i ==> (#[trigger] challenges@[k])@ == ext_of(commitments@[k]@),
        decreases commitments@.len() - i,
    {
        challenges.push(derive_challenge(&commitments[i]));
        i = i + 1;
    }
    assert(eseq(challenges@) =~= derived_challenges(commitments@));
    Batch { indices, codewords, commitments, challenges }
}

} // verus!
