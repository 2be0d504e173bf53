//! Public and private inputs of the circuits.

use crate::commitment::digests;
use crate::ext::{coords, fseq, EF};
use crate::field::F;
use crate::hash::{compress, compress_pair, is_compression, is_digest, lemma_compress};
use crate::numeric::{next_pow2, next_power_of_two};
use crate::slices::append_slice;
use crate::types::{digest_view, Batch, Commitment, Digest};
use crate::vm::{
    bind_hash, bound_hash, claim_len, claim_len_padded, claim_sizes, point_n_vars, sizes_fit,
    Bytecode, VmParams,
};
use vstd::prelude::*;

verus! {

/// A sequence of zeros.
pub open spec fn zeros(n: nat) -> Seq<int> {
    Seq::new(n, |i: int| 0int)
}

/// The chain over digests from the zero digest: compress the running digest with each
/// in turn.
pub open spec fn chain<H: Fn(Digest, Digest) -> Digest>(h: H, s: Seq<Seq<int>>) -> Seq<int>
    decreases s.len(),
{
    if s.len() == 0 {
        zeros(8)
    } else {
        compress(h, chain(h, s.drop_last()), s.last())
    }
}

/// A chain is a digest.
pub proof fn lemma_chain_digest<H: Fn(Digest, Digest) -> Digest>(h: H, s: Seq<Seq<int>>)
    requires
        is_compression(h),
    ensures
        is_digest(chain(h, s)),
{
    if s.len() > 0 {
        lemma_compress(h, chain(h, s.drop_last()), s.last());
    }
}

/// The roots of a sequence of commitments.
pub open spec fn roots(s: Seq<Commitment>) -> Seq<Seq<int>> {
    Seq::new(s.len(), |i: int| s[i]@)
}

/// The zero digest.
pub fn zero_digest() -> (d: Digest)
    ensures
        digest_view(d) == zeros(8),
{
    let z = F::zero();
    let d: Digest = [z, z, z, z, z, z, z, z];
    assert(digest_view(d) =~= zeros(8));
    d
}

pub proof fn lemma_fseq_add(a: Seq<F>, b: Seq<F>)
    ensures
        fseq(a + b) == fseq(a) + fseq(b),
{
    assert(fseq(a + b) =~= fseq(a) + fseq(b));
}

/// Append the elements of a digest.
pub fn push_digest(buf: &mut Vec<F>, d: &Digest)
    ensures
        fseq(final(buf)@) == fseq(old(buf)@) + digest_view(*d),
{
    let ghost before = buf@;
    append_slice(buf, d.as_slice());
    proof {
        lemma_fseq_add(before, d@);
    }
}

/// Append elements.
pub fn push_elements(buf: &mut Vec<F>, s: &Vec<F>)
    ensures
        fseq(final(buf)@) == fseq(old(buf)@) + fseq(s@),
{
    let ghost before = buf@;
    append_slice(buf, s.as_slice());
    proof {
        lemma_fseq_add(before, s@);
    }
}

/// Append one element.
pub fn push_element(buf: &mut Vec<F>, x: F)
    ensures
        fseq(final(buf)@) == fseq(old(buf)@).push(x@),
{
    let ghost before = fseq(buf@);
    buf.push(x);
    assert(fseq(buf@) =~= before.push(x@));
}

/// Append zeros.
pub fn push_zeros(buf: &mut Vec<F>, n: usize)
    ensures
        fseq(final(buf)@) == fseq(old(buf)@) + zeros(n as nat),
{
    let ghost before = fseq(buf@);
    let mut i: usize = 0;
    assert(before =~= before + zeros(0));
    while i < n
        invariant
            i <= n,
            fseq(buf@) == before + zeros(i as nat),
        decreases n - i,
    {
        push_element(buf, F::zero());
        i = i + 1;
        assert((before + zeros((i - 1) as nat)).push(0) =~= before + zeros(i as nat));
    }
}

/// Append the coordinates of an extension element.
pub fn push_ext(buf: &mut Vec<F>, x: &EF)
    ensures
        fseq(final(buf)@) == fseq(old(buf)@) + coords(x@),
{
    let ghost before = buf@;
    append_slice(buf, x.coeffs.as_slice());
    proof {
        lemma_fseq_add(before, x.coeffs@);
        assert(fseq(x.coeffs@) =~= coords(x@));
    }
}

/// Chain-hash digests, starting from a running digest.
pub fn chain_digests<H: Fn(Digest, Digest) -> Digest>(h: &H, s: &[Digest]) -> (d: Digest)
    requires
        is_compression(*h),
    ensures
        digest_view(d) == chain(*h, digests(s@)),
{
    let mut acc = zero_digest();
    let n: usize = s.len();
    let ghost v = digests(s@);
    let mut i: usize = 0;
    assert(v.take(0).len() == 0);
    while i < n
        invariant
            is_compression(*h),
            i <= n == s@.len(),
            v == digests(s@),
            digest_view(acc) == chain(*h, v.take(i as int)),
        decreases n - i,
    {
        acc = compress_pair(h, &acc, &s[i]);
        assert(v.take(i + 1).drop_last() =~= v.take(i as int));
        i = i + 1;
    }
    assert(v.take(n as int) =~= v);
    acc
}

/// Chain-hash commitments.
pub fn hash_commitments<H: Fn(Digest, Digest) -> Digest>(h: &H, commitments: &[Commitment]) -> (d:
    Digest)
    requires
        is_compression(*h),
    ensures
        digest_view(d) == chain(*h, roots(commitments@)),
{
    let n: usize = commitments.len();
    let mut s: Vec<Digest> = Vec::with_capacity(n);
    let mut i: usize = 0;
    while i < n
        invariant
            i <= n == commitments@.len(),
            s@.len() == i,
            forall|j: int| 0 <= j < i ==> #[trigger] s@[j] == commitments@[j].root,
        decreases n - i,
    {
        s.push(commitments[i].root);
        i = i + 1;
    }
    assert(digests(s@) =~= roots(commitments@));
    chain_digests(h, s.as_slice())
}

/// The public input of the batch circuit: the chain hash of the commitments and, where
/// a program is bound, its digest.
pub open spec fn batch_public_input<H: Fn(Digest, Digest) -> Digest>(
    h: H,
    vm: VmParams,
    commitments: Seq<Commitment>,
    bytecode_hash: Option<Digest>,
) -> Seq<int> {
    chain(h, roots(commitments)) + match bytecode_hash {
        Some(hash) => bound_hash(h, vm, hash),
        None => Seq::empty(),
    }
}

/// Build the public input of the batch circuit from commitments.
fn build_public_input<H: Fn(Digest, Digest) -> Digest>(
    h: &H,
    vm: &VmParams,
    commitments: &[Commitment],
    bytecode_hash: Option<Digest>,
) -> (r: Vec<F>)
    requires
        is_compression(*h),
    ensures
        fseq(r@) == batch_public_input(*h, *vm, commitments@, bytecode_hash),
{
    let mut public_input: Vec<F> = Vec::new();
    let batch_hash = hash_commitments(h, commitments);
    push_digest(&mut public_input, &batch_hash);
    proof {
        let v = digest_view(batch_hash);
        assert(fseq(Seq::<F>::empty()) + v =~= v);
        assert(v + Seq::<int>::empty() =~= v);
    }
    if let Some(hash) = bytecode_hash {
        let d = bind_hash(h, vm, &hash);
        push_digest(&mut public_input, &d);
    }
    public_input
}

/// The public input of the batch circuit without a program digest.
pub fn prepare_public_input<H: Fn(Digest, Digest) -> Digest>(
    h: &H,
    vm: &VmParams,
    batch: &Batch,
) -> (r: Vec<F>)
    requires
        is_compression(*h),
    ensures
        fseq(r@) == batch_public_input(*h, *vm, batch.commitments@, None),
{
    build_public_input(h, vm, batch.commitments.as_slice(), None)
}

/// The public input of the batch circuit with the program digest, which recursive
/// aggregation needs.
pub fn prepare_public_input_with_hash<H: Fn(Digest, Digest) -> Digest, B>(
    h: &H,
    vm: &VmParams,
    batch: &Batch,
    bytecode: &Bytecode<B>,
) -> (r: Vec<F>)
    requires
        is_compression(*h),
    ensures
        fseq(r@) == batch_public_input(*h, *vm, batch.commitments@, Some(bytecode.hash)),
{
    build_public_input(h, vm, batch.commitments.as_slice(), Some(bytecode.hash))
}

/// The public input of the batch circuit from what a verifier has.
pub fn build_verifier_public_input<H: Fn(Digest, Digest) -> Digest, B>(
    h: &H,
    vm: &VmParams,
    commitments: &[Commitment],
    bytecode: &Bytecode<B>,
) -> (r: Vec<F>)
    requires
        is_compression(*h),
    ensures
        fseq(r@) == batch_public_input(*h, *vm, commitments@, Some(bytecode.hash)),
{
    build_public_input(h, vm, commitments, Some(bytecode.hash))
}

/// A claim that the encoding at the zero point is `zero_eval`.
pub open spec fn default_claim(n_vars: int, zero_eval: int) -> Seq<int> {
    zeros((n_vars * 5) as nat) + seq![zero_eval, 0, 0, 0, 0]
}

/// A claim padded with zeros.
pub open spec fn padded(claim: Seq<int>, n_vars: int) -> Seq<int> {
    claim + zeros((claim_len_padded(n_vars) - claim_len(n_vars)) as nat)
}

/// Build the claim on the zero point.
pub fn build_default_claim(n_vars: usize, zero_eval: F) -> (r: Vec<F>)
    requires
        n_vars * 5 <= usize::MAX,
    ensures
        fseq(r@) == default_claim(n_vars as int, zero_eval@),
        r@.len() == claim_len(n_vars as int),
{
    let mut claim: Vec<F> = Vec::new();
    push_zeros(&mut claim, n_vars * 5);
    assert(fseq(Seq::<F>::empty()) + zeros((n_vars * 5) as nat) =~= zeros((n_vars * 5) as nat));
    let z = F::zero();
    push_element(&mut claim, zero_eval);
    push_element(&mut claim, z);
    push_element(&mut claim, z);
    push_element(&mut claim, z);
    push_element(&mut claim, z);
    assert(fseq(claim@) =~= default_claim(n_vars as int, zero_eval@));
    assert(fseq(claim@).len() == claim@.len());
    claim
}

/// The public input of the unified circuit: the aggregated hash, the padded claim on
/// the program's encoding, and the program's digest.
pub open spec fn unified_layout(
    agg: Seq<int>,
    claim: Seq<int>,
    n_vars: int,
    hash: Seq<int>,
) -> Seq<int> {
    agg + padded(claim, n_vars) + hash
}

/// Lay out the public input of the unified circuit.
pub fn layout_unified(agg: &Digest, claim: &Vec<F>, n_vars: usize, hash: &Digest) -> (r: Vec<F>)
    requires
        claim@.len() == claim_len(n_vars as int),
        claim_len_padded(n_vars as int) <= usize::MAX,
        claim_len(n_vars as int) <= claim_len_padded(n_vars as int),
    ensures
        fseq(r@) == unified_layout(
            digest_view(*agg),
            fseq(claim@),
            n_vars as int,
            digest_view(*hash),
        ),
{
    let mut out: Vec<F> = Vec::new();
    push_digest(&mut out, agg);
    push_padded(&mut out, claim, n_vars);
    push_digest(&mut out, hash);
    assert(fseq(out@) =~= unified_layout(
        digest_view(*agg),
        fseq(claim@),
        n_vars as int,
        digest_view(*hash),
    )) by {
        assert(fseq(Seq::<F>::empty()) + digest_view(*agg) =~= digest_view(*agg));
    }
    out
}

/// Append a padded claim.
fn push_padded(buf: &mut Vec<F>, claim: &Vec<F>, n_vars: usize)
    requires
        claim@.len() == claim_len(n_vars as int),
        claim_len_padded(n_vars as int) <= usize::MAX,
        claim_len(n_vars as int) <= claim_len_padded(n_vars as int),
    ensures
        fseq(final(buf)@) == fseq(old(buf)@) + padded(fseq(claim@), n_vars as int),
{
    let ghost before = fseq(buf@);
    let size: usize = claim.len();
    let total: usize = crate::numeric::next_multiple_of(size, 8);
    push_elements(buf, claim);
    push_zeros(buf, total - size);
    assert(before + fseq(claim@) + zeros((total - size) as nat) =~= before + padded(
        fseq(claim@),
        n_vars as int,
    ));
}

/// The public input of the unified circuit for the given hashes, with the claim on the
/// zero point.
pub open spec fn default_unified_input<H: Fn(Digest, Digest) -> Digest, B>(
    h: H,
    vm: VmParams,
    hashes: Seq<Seq<int>>,
    bytecode: Bytecode<B>,
) -> Seq<int> {
    let n_vars = point_n_vars(bytecode.log_size as int, vm.n_instruction_columns as int);
    unified_layout(
        chain(h, hashes),
        default_claim(n_vars, bytecode.zero_eval@),
        n_vars,
        bound_hash(h, vm, bytecode.hash),
    )
}

/// Build the public input of the unified circuit for the chain hashes of the raw
/// batches, with the claim on the zero point.
pub fn build_unified_public_input<H: Fn(Digest, Digest) -> Digest, B>(
    h: &H,
    vm: &VmParams,
    batch_hashes: &[Digest],
    bytecode: &Bytecode<B>,
) -> (r: Vec<F>)
    requires
        is_compression(*h),
        sizes_fit(bytecode.log_size as int),
    ensures
        fseq(r@) == default_unified_input(*h, *vm, digests(batch_hashes@), *bytecode),
{
    let agg = chain_digests(h, batch_hashes);
    let sizes: (usize, usize, usize) = claim_sizes(bytecode.log_size, vm.n_instruction_columns);
    let claim = build_default_claim(sizes.0, bytecode.zero_eval);
    let hash = bind_hash(h, vm, &bytecode.hash);
    layout_unified(&agg, &claim, sizes.0, &hash)
}

/// The public input of the hybrid circuit: the aggregated hash, the padded claims on
/// the inner program and on the circuit itself, and the digests of both.
pub open spec fn hybrid_layout(
    agg: Seq<int>,
    inner_claim: Seq<int>,
    inner_n_vars: int,
    self_claim: Seq<int>,
    self_n_vars: int,
    inner_hash: Seq<int>,
    self_hash: Seq<int>,
) -> Seq<int> {
    agg + padded(inner_claim, inner_n_vars) + padded(self_claim, self_n_vars) + inner_hash
        + self_hash
}

/// Lay out the public input of the hybrid circuit.
pub fn layout_hybrid(
    agg: &Digest,
    inner_claim: &Vec<F>,
    inner_n_vars: usize,
    self_claim: &Vec<F>,
    self_n_vars: usize,
    inner_hash: &Digest,
    self_hash: &Digest,
) -> (r: Vec<F>)
    requires
        inner_claim@.len() == claim_len(inner_n_vars as int),
        claim_len(inner_n_vars as int) <= claim_len_padded(inner_n_vars as int) <= usize::MAX,
        self_claim@.len() == claim_len(self_n_vars as int),
        claim_len(self_n_vars as int) <= claim_len_padded(self_n_vars as int) <= usize::MAX,
    ensures
        fseq(r@) == hybrid_layout(
            digest_view(*agg),
            fseq(inner_claim@),
            inner_n_vars as int,
            fseq(self_claim@),
            self_n_vars as int,
            digest_view(*inner_hash),
            digest_view(*self_hash),
        ),
{
    let mut out: Vec<F> = Vec::new();
    push_digest(&mut out, agg);
    assert(fseq(Seq::<F>::empty()) + digest_view(*agg) =~= digest_view(*agg));
    push_padded(&mut out, inner_claim, inner_n_vars);
    push_padded(&mut out, self_claim, self_n_vars);
    push_digest(&mut out, inner_hash);
    push_digest(&mut out, self_hash);
    out
}

/// The public input of the hybrid circuit for the given hashes, with the claims on the zero
/// points.
pub open spec fn default_hybrid_input<H: Fn(Digest, Digest) -> Digest, B>(
    h: H,
    vm: VmParams,
    hashes: Seq<Seq<int>>,
    inner: Bytecode<B>,
    hybrid: Bytecode<B>,
) -> Seq<int> {
    let cols = vm.n_instruction_columns as int;
    let inner_n_vars = point_n_vars(inner.log_size as int, cols);
    let self_n_vars = point_n_vars(hybrid.log_size as int, cols);
    hybrid_layout(
        chain(h, hashes),
        default_claim(inner_n_vars, inner.zero_eval@),
        inner_n_vars,
        default_claim(self_n_vars, hybrid.zero_eval@),
        self_n_vars,
        bound_hash(h, vm, inner.hash),
        bound_hash(h, vm, hybrid.hash),
    )
}

/// Build the public input of the hybrid circuit for the given batch hashes, with the
/// claims on the zero points.
pub fn build_hybrid_public_input<H: Fn(Digest, Digest) -> Digest, B>(
    h: &H,
    vm: &VmParams,
    batch_hashes: &[Digest],
    inner_bytecode: &Bytecode<B>,
    self_bytecode: &Bytecode<B>,
) -> (r: Vec<F>)
    requires
        is_compression(*h),
        sizes_fit(inner_bytecode.log_size as int),
        sizes_fit(self_bytecode.log_size as int),
    ensures
        fseq(r@) == default_hybrid_input(
            *h,
            *vm,
            digests(batch_hashes@),
            *inner_bytecode,
            *self_bytecode,
        ),
{
    let agg = chain_digests(h, batch_hashes);
    let cols: usize = vm.n_instruction_columns;
    let inner: (usize, usize, usize) = claim_sizes(inner_bytecode.log_size, cols);
    let own: (usize, usize, usize) = claim_sizes(self_bytecode.log_size, cols);
    let inner_claim = build_default_claim(inner.0, inner_bytecode.zero_eval);
    let self_claim = build_default_claim(own.0, self_bytecode.zero_eval);
    let inner_hash = bind_hash(h, vm, &inner_bytecode.hash);
    let self_hash = bind_hash(h, vm, &self_bytecode.hash);
    layout_hybrid(&agg, &inner_claim, inner.0, &self_claim, own.0, &inner_hash, &self_hash)
}

/// The public memory of an execution: the input at its address, padded with zeros to a
/// power of two.
pub open spec fn public_memory(input_start: int, input: Seq<int>) -> Seq<int> {
    let total = input_start + input.len();
    zeros(input_start as nat) + input + zeros((next_pow2(total) - total) as nat)
}

/// Build the public memory from the public input.
pub fn build_public_memory(vm: &VmParams, public_input: &Vec<F>) -> (r: Vec<F>)
    requires
        next_pow2(vm.input_start + public_input@.len()) <= usize::MAX,
    ensures
        fseq(r@) == public_memory(vm.input_start as int, fseq(public_input@)),
        r@.len() == next_pow2(vm.input_start + public_input@.len()),
{
    proof {
        crate::numeric::lemma_log2_ceil(vm.input_start + public_input@.len());
    }
    let total: usize = vm.input_start + public_input.len();
    let size: usize = next_power_of_two(total);
    let mut memory: Vec<F> = Vec::with_capacity(size);
    push_zeros(&mut memory, vm.input_start);
    push_elements(&mut memory, public_input);
    push_zeros(&mut memory, size - total);
    assert(fseq(Seq::<F>::empty()) + zeros(vm.input_start as nat) =~= zeros(
        vm.input_start as nat,
    ));
    assert(fseq(memory@).len() == memory@.len());
    memory
}

} // verus!
