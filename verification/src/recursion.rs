//! Recursive aggregation of proofs.
//!
//! The unified circuit verifies proofs of itself. The hybrid circuit verifies proofs of
//! the batch circuit and of itself. Either way the children's proofs are verified, the
//! claims on the programs' encodings are reduced to one per program, and the circuit
//! proves that it verified the children.

use crate::circuit::MAX_INNER_PROOFS;
use crate::claims::{
    build_zero_claim, claim_views, compute_reduced_claim, copy_evaluation,
    do_bytecode_sumcheck_reduction, flat_claim, is_reduction, lemma_flat_coords_len, parse_claim,
    parsed_claim, reduces, zero_claim, Claim, Reduction,
};
use crate::commitment::digests;
use crate::ext::{coords, eseq, fseq, EF};
use crate::field::{F, P};
use crate::hash::{is_compression, is_digest, lemma_compress};
use crate::inputs::{
    build_default_claim, build_public_memory, chain, chain_digests, default_claim,
    default_hybrid_input, default_unified_input, hybrid_layout, layout_hybrid, layout_unified,
    lemma_chain_digest, padded, public_memory, push_element, push_elements, push_ext,
    unified_layout,
};
use crate::numeric::next_pow2;
use crate::slices::{flat, lemma_flat_take};
use crate::types::{digest_view, Digest};
use crate::vm::{
    bind_hash, bound_hash, claim_len, claim_len_padded, claim_sizes, point_n_vars, sizes_fit,
    Bytecode, Evaluation, PathOpening, Verified, VmParams, Witness,
};
use vstd::prelude::*;

verus! {

/// The views of vectors of base field elements.
pub open spec fn vec_views(s: Seq<Vec<F>>) -> Seq<Seq<int>> {
    Seq::new(s.len(), |i: int| fseq(s[i]@))
}

/// The hash that a public input starts with.
pub open spec fn leading_digest(public_input: Seq<int>) -> Seq<int> {
    public_input.take(8)
}

/// The hashes that public inputs start with.
pub open spec fn leading_digests<P>(proofs: Seq<(Vec<F>, P)>) -> Seq<Seq<int>> {
    Seq::new(proofs.len(), |i: int| leading_digest(fseq(proofs[i].0@)))
}

/// Read the hash that a public input starts with.
pub fn read_leading_digest(data: &Vec<F>) -> (d: Digest)
    requires
        data@.len() >= 8,
    ensures
        digest_view(d) == leading_digest(fseq(data@)),
{
    let d: Digest = [data[0], data[1], data[2], data[3], data[4], data[5], data[6], data[7]];
    assert(digest_view(d) =~= leading_digest(fseq(data@)));
    d
}

/// Append the hashes that public inputs start with.
fn push_leading_digests<P>(out: &mut Vec<Digest>, proofs: &Vec<(Vec<F>, P)>)
    requires
        forall|i: int| 0 <= i < proofs@.len() ==> (#[trigger] proofs@[i]).0@.len() >= 8,
    ensures
        digests(final(out)@) == digests(old(out)@) + leading_digests(proofs@),
{
    let n: usize = proofs.len();
    let ghost before = digests(out@);
    let ghost v = leading_digests(proofs@);
    let mut i: usize = 0;
    assert(before + v.take(0) =~= before);
    while i < n
        invariant
            i <= n == proofs@.len(),
            v == leading_digests(proofs@),
            forall|k: int| 0 <= k < proofs@.len() ==> (#[trigger] proofs@[k]).0@.len() >= 8,
            digests(out@) == before + v.take(i as int),
        decreases n - i,
    {
        let ghost prev = out@;
        assert(proofs@[i as int].0@.len() >= 8);
        out.push(read_leading_digest(&proofs[i].0));
        proof {
            assert(digests(out@) =~= digests(prev).push(v[i as int]));
            assert((before + v.take(i as int)).push(v[i as int]) =~= before + v.take(i + 1));
        }
        i = i + 1;
    }
    assert(v.take(n as int) =~= v);
}

/// The part of the private input for one child: the value of the claim that its
/// verification leaves open, its public memory, and its transcript.
pub open spec fn source_block(vm: VmParams, public_input: Seq<int>, v: Verified) -> Seq<int> {
    coords(v.bytecode_evaluation.value@) + public_memory(vm.input_start as int, public_input)
        + fseq(v.raw_proof.transcript@)
}

/// The parts for children.
pub open spec fn source_blocks<P>(
    vm: VmParams,
    proofs: Seq<(Vec<F>, P)>,
    verified: Seq<Verified>,
) -> Seq<Seq<int>> {
    Seq::new(proofs.len(), |i: int| source_block(vm, fseq(proofs[i].0@), verified[i]))
}

/// The public memory of every child fits a machine word.
pub open spec fn memories_fit<P>(vm: VmParams, proofs: Seq<(Vec<F>, P)>) -> bool {
    forall|i: int|
        0 <= i < proofs.len() ==> next_pow2(vm.input_start + (#[trigger] proofs[i]).0@.len())
            <= usize::MAX
}

/// Append the parts of the private input for children.
fn push_source_blocks<P>(
    parts: &mut Vec<Vec<F>>,
    vm: &VmParams,
    proofs: &Vec<(Vec<F>, P)>,
    verified: &Vec<Verified>,
)
    requires
        proofs@.len() == verified@.len(),
        memories_fit(*vm, proofs@),
    ensures
        vec_views(final(parts)@) == vec_views(old(parts)@) + source_blocks(
            *vm,
            proofs@,
            verified@,
        ),
{
    let n: usize = proofs.len();
    let ghost before = vec_views(parts@);
    let ghost v = source_blocks(*vm, proofs@, verified@);
    let mut i: usize = 0;
    assert(before + v.take(0) =~= before);
    while i < n
        invariant
            i <= n == proofs@.len(),
            n == verified@.len(),
            memories_fit(*vm, proofs@),
            v == source_blocks(*vm, proofs@, verified@),
            vec_views(parts@) == before + v.take(i as int),
        decreases n - i,
    {
        let ghost prev = parts@;
        let mut block: Vec<F> = Vec::new();
        push_ext(&mut block, &verified[i].bytecode_evaluation.value);
        assert(fseq(Seq::<F>::empty()) + coords(verified@[i as int].bytecode_evaluation.value@)
            =~= coords(verified@[i as int].bytecode_evaluation.value@));
        assert(next_pow2(vm.input_start + proofs@[i as int].0@.len()) <= usize::MAX);
        let memory = build_public_memory(vm, &proofs[i].0);
        push_elements(&mut block, &memory);
        push_elements(&mut block, &verified[i].raw_proof.transcript);
        parts.push(block);
        proof {
            assert(vec_views(parts@) =~= vec_views(prev).push(v[i as int]));
            assert((before + v.take(i as int)).push(v[i as int]) =~= before + v.take(i + 1));
        }
        i = i + 1;
    }
    assert(v.take(n as int) =~= v);
}

/// The private input of a recursive circuit: the counts of proofs of its two kinds, the
/// address of each part, and the parts. The parts follow each other, and the private
/// input starts at `base`.
pub open spec fn recursion_private_input(
    n_first: int,
    n_second: int,
    parts: Seq<Seq<int>>,
    base: int,
) -> Seq<int> {
    seq![n_first % (P as int), n_second % (P as int)] + part_addresses(parts, base) + flat(parts)
}

/// The addresses of the parts.
pub open spec fn part_addresses(parts: Seq<Seq<int>>, base: int) -> Seq<int> {
    Seq::new(
        parts.len(),
        |i: int| (base + 2 + parts.len() + flat(parts.take(i)).len()) % (P as int),
    )
}

/// Lay out the private input of a recursive circuit.
pub fn layout_private_input(n_first: usize, n_second: usize, parts: &Vec<Vec<F>>, base: usize) -> (r:
    Vec<F>)
    requires
        base + 2 + parts@.len() + flat(vec_views(parts@)).len() <= usize::MAX,
    ensures
        fseq(r@) == recursion_private_input(
            n_first as int,
            n_second as int,
            vec_views(parts@),
            base as int,
        ),
{
    let n: usize = parts.len();
    let ghost v = vec_views(parts@);
    let ghost addresses = part_addresses(v, base as int);
    let mut out: Vec<F> = Vec::new();
    push_element(&mut out, F::from_usize(n_first));
    push_element(&mut out, F::from_usize(n_second));
    let ghost head = seq![n_first as int % (P as int), n_second as int % (P as int)];
    assert(fseq(out@) =~= head);
    let mut offset: usize = base + 2 + n;
    let mut i: usize = 0;
    assert(v.take(0).len() == 0);
    assert(head + addresses.take(0) =~= head);
    while i < n
        invariant
            i <= n == parts@.len(),
            v == vec_views(parts@),
            addresses == part_addresses(v, base as int),
            base + 2 + n + flat(v).len() <= usize::MAX,
            offset == base + 2 + n + flat(v.take(i as int)).len(),
            fseq(out@) == head + addresses.take(i as int),
        decreases n - i,
    {
        push_element(&mut out, F::from_usize(offset));
        proof {
            lemma_flat_take(v, i as int);
            lemma_flat_prefix(v, i + 1);
            assert((head + addresses.take(i as int)).push(addresses[i as int]) =~= head
                + addresses.take(i + 1));
            assert(v[i as int].len() == parts@[i as int]@.len());
        }
        offset = offset + parts[i].len();
        i = i + 1;
    }
    assert(addresses.take(n as int) =~= addresses);
    let ghost top = fseq(out@);
    let mut k: usize = 0;
    assert(top + flat(v.take(0)) =~= top);
    while k < n
        invariant
            k <= n == parts@.len(),
            v == vec_views(parts@),
            fseq(out@) == top + flat(v.take(k as int)),
        decreases n - k,
    {
        push_elements(&mut out, &parts[k]);
        proof {
            lemma_flat_take(v, k as int);
            assert(top + flat(v.take(k as int)) + v[k as int] =~= top + (flat(v.take(k as int))
                + v[k as int]));
        }
        k = k + 1;
    }
    assert(v.take(n as int) =~= v);
    out
}

/// A prefix of the parts is no longer than the parts.
proof fn lemma_flat_prefix(v: Seq<Seq<int>>, k: int)
    requires
        0 <= k <= v.len(),
    ensures
        flat(v.take(k)).len() <= flat(v).len(),
    decreases v.len() - k,
{
    if k < v.len() {
        lemma_flat_take(v, k);
        lemma_flat_prefix(v, k + 1);
    } else {
        assert(v.take(k) =~= v);
    }
}

/// The leaf and the flattened path of each opening of a proof.
pub open spec fn opening_paths(openings: Seq<PathOpening>) -> Seq<Seq<int>> {
    Seq::new(
        2 * openings.len(),
        |k: int| if k % 2 == 0 {
            fseq(openings[k / 2].leaf_data@)
        } else {
            flat(digests(openings[k / 2].path@))
        },
    )
}

/// The authentication paths of proofs.
pub open spec fn all_paths(verified: Seq<Verified>) -> Seq<Seq<int>> {
    flat(
        Seq::new(
            verified.len(),
            |i: int| opening_paths(verified[i].raw_proof.merkle_openings@),
        ),
    )
}

/// Flatten a path.
fn flatten_path(path: &Vec<[F; 8]>) -> (r: Vec<F>)
    ensures
        fseq(r@) == flat(digests(path@)),
{
    let n: usize = path.len();
    let ghost v = digests(path@);
    let mut out: Vec<F> = Vec::new();
    let mut i: usize = 0;
    assert(v.take(0).len() == 0);
    assert(fseq(out@) =~= flat(v.take(0)));
    while i < n
        invariant
            i <= n == path@.len(),
            v == digests(path@),
            fseq(out@) == flat(v.take(i as int)),
        decreases n - i,
    {
        crate::inputs::push_digest(&mut out, &path[i]);
        proof {
            lemma_flat_take(v, i as int);
        }
        i = i + 1;
    }
    assert(v.take(n as int) =~= v);
    out
}

/// Append the leaf and the flattened path of each opening of a proof.
fn push_opening_paths(out: &mut Vec<Vec<F>>, openings: &Vec<PathOpening>)
    ensures
        vec_views(final(out)@) == vec_views(old(out)@) + opening_paths(openings@),
{
    let n: usize = openings.len();
    let ghost before = vec_views(out@);
    let ghost v = opening_paths(openings@);
    let mut i: usize = 0;
    assert(before + v.take(0) =~= before);
    while i < n
        invariant
            i <= n == openings@.len(),
            v == opening_paths(openings@),
            vec_views(out@) == before + v.take(2 * i),
        decreases n - i,
    {
        let ghost prev = vec_views(out@);
        let leaf = crate::slices::copy_slice(openings[i].leaf_data.as_slice());
        let path = flatten_path(&openings[i].path);
        out.push(leaf);
        out.push(path);
        proof {
            let k = 2 * i as int;
            assert(k / 2 == i && (k + 1) / 2 == i && k % 2 == 0 && (k + 1) % 2 == 1);
            assert(vec_views(out@) =~= prev.push(v[k]).push(v[k + 1]));
            assert((before + v.take(k)).push(v[k]).push(v[k + 1]) =~= before + v.take(k + 2));
        }
        i = i + 1;
    }
    assert(v.take(2 * n) =~= v);
}

/// Append the authentication paths of proofs.
fn push_all_paths(out: &mut Vec<Vec<F>>, verified: &Vec<Verified>)
    ensures
        vec_views(final(out)@) == vec_views(old(out)@) + all_paths(verified@),
{
    let n: usize = verified.len();
    let ghost before = vec_views(out@);
    let ghost v = Seq::new(
        verified@.len(),
        |i: int| opening_paths(verified@[i].raw_proof.merkle_openings@),
    );
    let mut i: usize = 0;
    assert(v.take(0).len() == 0);
    assert(before + flat(v.take(0)) =~= before);
    while i < n
        invariant
            i <= n == verified@.len(),
            v == Seq::new(
                verified@.len(),
                |j: int| opening_paths(verified@[j].raw_proof.merkle_openings@),
            ),
            vec_views(out@) == before + flat(v.take(i as int)),
        decreases n - i,
    {
        push_opening_paths(out, &verified[i].raw_proof.merkle_openings);
        proof {
            lemma_flat_take(v, i as int);
            assert(before + flat(v.take(i as int)) + v[i as int] =~= before + (flat(
                v.take(i as int),
            ) + v[i as int]));
        }
        i = i + 1;
    }
    assert(v.take(n as int) =~= v);
}

// Claims.

/// For each child the claim at `offset` in its public input, followed by the claim that
/// its verification leaves open.
pub open spec fn paired_claims<P>(
    proofs: Seq<(Vec<F>, P)>,
    verified: Seq<Verified>,
    offset: int,
    n_vars: int,
) -> Seq<Claim> {
    Seq::new(
        2 * proofs.len(),
        |k: int| if k % 2 == 0 {
            parsed_claim(fseq(proofs[k / 2].0@), offset, n_vars)
        } else {
            verified[k / 2].bytecode_evaluation@
        },
    )
}

/// For each child the claim at `offset` in its public input.
pub open spec fn propagated_claims<P>(
    proofs: Seq<(Vec<F>, P)>,
    offset: int,
    n_vars: int,
) -> Seq<Claim> {
    Seq::new(proofs.len(), |i: int| parsed_claim(fseq(proofs[i].0@), offset, n_vars))
}

/// For each child the claim on the zero point, followed by the claim that its
/// verification leaves open.
pub open spec fn opened_claims(verified: Seq<Verified>, n_vars: int, zero_eval: int) -> Seq<Claim> {
    Seq::new(
        2 * verified.len(),
        |k: int| if k % 2 == 0 {
            zero_claim(n_vars, zero_eval)
        } else {
            verified[k / 2].bytecode_evaluation@
        },
    )
}

/// Every public input is long enough for the claim at `offset`.
pub open spec fn claims_present<P>(proofs: Seq<(Vec<F>, P)>, offset: int, n_vars: int) -> bool {
    forall|i: int|
        0 <= i < proofs.len() ==> offset + claim_len(n_vars) <= (#[trigger] proofs[i]).0@.len()
}

/// Append the paired claims of children.
fn push_paired_claims<P>(
    out: &mut Vec<Evaluation>,
    proofs: &Vec<(Vec<F>, P)>,
    verified: &Vec<Verified>,
    offset: usize,
    n_vars: usize,
)
    requires
        proofs@.len() == verified@.len(),
        claims_present(proofs@, offset as int, n_vars as int),
    ensures
        claim_views(final(out)@) == claim_views(old(out)@) + paired_claims(
            proofs@,
            verified@,
            offset as int,
            n_vars as int,
        ),
{
    let n: usize = proofs.len();
    let ghost before = claim_views(out@);
    let ghost v = paired_claims(proofs@, verified@, offset as int, n_vars as int);
    let mut i: usize = 0;
    assert(before + v.take(0) =~= before);
    while i < n
        invariant
            i <= n == proofs@.len(),
            n == verified@.len(),
            claims_present(proofs@, offset as int, n_vars as int),
            v == paired_claims(proofs@, verified@, offset as int, n_vars as int),
            claim_views(out@) == before + v.take(2 * i),
        decreases n - i,
    {
        let ghost prev = claim_views(out@);
        assert(offset + claim_len(n_vars as int) <= proofs@[i as int].0@.len());
        out.push(parse_claim(&proofs[i].0, offset, n_vars));
        out.push(copy_evaluation(&verified[i].bytecode_evaluation));
        proof {
            let k = 2 * i as int;
            assert(k / 2 == i && (k + 1) / 2 == i && k % 2 == 0 && (k + 1) % 2 == 1);
            assert(claim_views(out@) =~= prev.push(v[k]).push(v[k + 1]));
            assert((before + v.take(k)).push(v[k]).push(v[k + 1]) =~= before + v.take(k + 2));
        }
        i = i + 1;
    }
    assert(v.take(2 * n) =~= v);
}

/// Append the propagated claims of children.
fn push_propagated_claims<P>(
    out: &mut Vec<Evaluation>,
    proofs: &Vec<(Vec<F>, P)>,
    offset: usize,
    n_vars: usize,
)
    requires
        claims_present(proofs@, offset as int, n_vars as int),
    ensures
        claim_views(final(out)@) == claim_views(old(out)@) + propagated_claims(
            proofs@,
            offset as int,
            n_vars as int,
        ),
{
    let n: usize = proofs.len();
    let ghost before = claim_views(out@);
    let ghost v = propagated_claims(proofs@, offset as int, n_vars as int);
    let mut i: usize = 0;
    assert(before + v.take(0) =~= before);
    while i < n
        invariant
            i <= n == proofs@.len(),
            claims_present(proofs@, offset as int, n_vars as int),
            v == propagated_claims(proofs@, offset as int, n_vars as int),
            claim_views(out@) == before + v.take(i as int),
        decreases n - i,
    {
        let ghost prev = claim_views(out@);
        assert(offset + claim_len(n_vars as int) <= proofs@[i as int].0@.len());
        out.push(parse_claim(&proofs[i].0, offset, n_vars));
        proof {
            assert(claim_views(out@) =~= prev.push(v[i as int]));
            assert((before + v.take(i as int)).push(v[i as int]) =~= before + v.take(i + 1));
        }
        i = i + 1;
    }
    assert(v.take(n as int) =~= v);
}

/// Append the opened claims of children.
fn push_opened_claims(
    out: &mut Vec<Evaluation>,
    verified: &Vec<Verified>,
    n_vars: usize,
    zero_eval: F,
)
    ensures
        claim_views(final(out)@) == claim_views(old(out)@) + opened_claims(
            verified@,
            n_vars as int,
            zero_eval@,
        ),
{
    let n: usize = verified.len();
    let ghost before = claim_views(out@);
    let ghost v = opened_claims(verified@, n_vars as int, zero_eval@);
    let mut i: usize = 0;
    assert(before + v.take(0) =~= before);
    while i < n
        invariant
            i <= n == verified@.len(),
            v == opened_claims(verified@, n_vars as int, zero_eval@),
            claim_views(out@) == before + v.take(2 * i),
        decreases n - i,
    {
        let ghost prev = claim_views(out@);
        out.push(build_zero_claim(n_vars, zero_eval));
        out.push(copy_evaluation(&verified[i].bytecode_evaluation));
        proof {
            let k = 2 * i as int;
            assert(k / 2 == i && (k + 1) / 2 == i && k % 2 == 0 && (k + 1) % 2 == 1);
            assert(claim_views(out@) =~= prev.push(v[k]).push(v[k + 1]));
            assert((before + v.take(k)).push(v[k]).push(v[k + 1]) =~= before + v.take(k + 2));
        }
        i = i + 1;
    }
    assert(v.take(2 * n) =~= v);
}

/// The claims of the unified recursion.
pub fn build_unified_claims<P>(
    proofs: &Vec<(Vec<F>, P)>,
    verified: &Vec<Verified>,
    n_vars: usize,
) -> (r: Vec<Evaluation>)
    requires
        proofs@.len() == verified@.len(),
        claims_present(proofs@, 8, n_vars as int),
    ensures
        claim_views(r@) == paired_claims(proofs@, verified@, 8, n_vars as int),
{
    let mut claims: Vec<Evaluation> = Vec::new();
    push_paired_claims(&mut claims, proofs, verified, 8, n_vars);
    proof {
        let v = paired_claims(proofs@, verified@, 8, n_vars as int);
        assert(claim_views(Seq::<Evaluation>::empty()) + v =~= v);
    }
    claims
}

/// The claims on the inner program in the hybrid recursion: those that the self proofs
/// carry, then two for each inner proof.
pub open spec fn hybrid_inner_claims<P>(
    self_proofs: Seq<(Vec<F>, P)>,
    inner_verified: Seq<Verified>,
    inner_n_vars: int,
    inner_zero_eval: int,
) -> Seq<Claim> {
    propagated_claims(self_proofs, 8, inner_n_vars) + opened_claims(
        inner_verified,
        inner_n_vars,
        inner_zero_eval,
    )
}

/// Build the claims on the inner program in the hybrid recursion.
pub fn build_hybrid_inner_claims<P>(
    self_proofs: &Vec<(Vec<F>, P)>,
    inner_verified: &Vec<Verified>,
    inner_n_vars: usize,
    inner_zero_eval: F,
) -> (r: Vec<Evaluation>)
    requires
        claims_present(self_proofs@, 8, inner_n_vars as int),
    ensures
        claim_views(r@) == hybrid_inner_claims(
            self_proofs@,
            inner_verified@,
            inner_n_vars as int,
            inner_zero_eval@,
        ),
{
    let mut claims: Vec<Evaluation> = Vec::new();
    push_propagated_claims(&mut claims, self_proofs, 8, inner_n_vars);
    proof {
        let v = propagated_claims(self_proofs@, 8, inner_n_vars as int);
        assert(claim_views(Seq::<Evaluation>::empty()) + v =~= v);
    }
    push_opened_claims(&mut claims, inner_verified, inner_n_vars, inner_zero_eval);
    claims
}

/// Build the claims on the hybrid program itself: for each self proof the claim that it
/// carries at `offset` and the claim that its verification leaves open.
pub fn build_hybrid_self_claims<P>(
    self_proofs: &Vec<(Vec<F>, P)>,
    self_verified: &Vec<Verified>,
    offset: usize,
    self_n_vars: usize,
) -> (r: Vec<Evaluation>)
    requires
        self_proofs@.len() == self_verified@.len(),
        claims_present(self_proofs@, offset as int, self_n_vars as int),
    ensures
        claim_views(r@) == paired_claims(
            self_proofs@,
            self_verified@,
            offset as int,
            self_n_vars as int,
        ),
{
    let mut claims: Vec<Evaluation> = Vec::new();
    push_paired_claims(&mut claims, self_proofs, self_verified, offset, self_n_vars);
    proof {
        let v = paired_claims(self_proofs@, self_verified@, offset as int, self_n_vars as int);
        assert(claim_views(Seq::<Evaluation>::empty()) + v =~= v);
    }
    claims
}

// Verification of the children.

/// `verify` can be called on every child and accepts it.
pub open spec fn all_verify<B, P, V: Fn(&Bytecode<B>, &Vec<F>, &P) -> Result<Verified, String>>(
    verify: V,
    bytecode: Bytecode<B>,
    proofs: Seq<(Vec<F>, P)>,
) -> bool {
    forall|i: int|
        0 <= i < proofs.len() ==> {
            let c = #[trigger] proofs[i];
            &&& call_requires(verify, (&bytecode, &c.0, &c.1))
            &&& forall|o: Result<Verified, String>| #[trigger]
                call_ensures(verify, (&bytecode, &c.0, &c.1), o) ==> o is Ok
        }
}

/// The verifications of the children.
pub open spec fn verified_by<B, P, V: Fn(&Bytecode<B>, &Vec<F>, &P) -> Result<Verified, String>>(
    verify: V,
    bytecode: Bytecode<B>,
    proofs: Seq<(Vec<F>, P)>,
    verified: Seq<Verified>,
) -> bool {
    &&& verified.len() == proofs.len()
    &&& forall|i: int|
        0 <= i < proofs.len() ==> call_ensures(
            verify,
            (&bytecode, &proofs[i].0, &proofs[i].1),
            Ok::<Verified, String>(#[trigger] verified[i]),
        )
}

/// Verify the children.
fn verify_children<B, P, V: Fn(&Bytecode<B>, &Vec<F>, &P) -> Result<Verified, String>>(
    verify: &V,
    bytecode: &Bytecode<B>,
    proofs: &Vec<(Vec<F>, P)>,
) -> (r: Vec<Verified>)
    requires
        all_verify(*verify, *bytecode, proofs@),
    ensures
        verified_by(*verify, *bytecode, proofs@, r@),
{
    let n: usize = proofs.len();
    let mut out: Vec<Verified> = Vec::with_capacity(n);
    let mut i: usize = 0;
    while i < n
        invariant
            i <= n == proofs@.len(),
            all_verify(*verify, *bytecode, proofs@),
            out@.len() == i,
            forall|j: int|
                0 <= j < i ==> call_ensures(
                    *verify,
                    (bytecode, &proofs@[j].0, &proofs@[j].1),
                    Ok::<Verified, String>(#[trigger] out@[j]),
                ),
        decreases n - i,
    {
        let ghost c = proofs@[i as int];
        assert(call_requires(*verify, (bytecode, &c.0, &c.1)));
        let outcome = verify(bytecode, &proofs[i].0, &proofs[i].1);
        assert(outcome is Ok);
        if let Ok(v) = outcome {
            out.push(v);
        }
        i = i + 1;
    }
    out
}

// The unified recursion.

/// The parts of the unified recursion's private input.
pub open spec fn unified_parts<P>(
    vm: VmParams,
    proofs: Seq<(Vec<F>, P)>,
    verified: Seq<Verified>,
    transcript: Seq<int>,
) -> Seq<Seq<int>> {
    source_blocks(vm, proofs, verified).push(transcript)
}

/// The public input of the unified recursion.
pub open spec fn unified_recursion_input<H: Fn(Digest, Digest) -> Digest, B, P>(
    h: H,
    vm: VmParams,
    bytecode: Bytecode<B>,
    proofs: Seq<(Vec<F>, P)>,
    reduction: Reduction,
) -> Seq<int> {
    unified_layout(
        chain(h, leading_digests(proofs)),
        flat_claim(eseq(reduction.point@), reduction.value@),
        point_n_vars(bytecode.log_size as int, vm.n_instruction_columns as int),
        bound_hash(h, vm, bytecode.hash),
    )
}

/// Build the public input of the unified recursion.
pub fn build_unified_recursion_input<H: Fn(Digest, Digest) -> Digest, B, P>(
    h: &H,
    vm: &VmParams,
    bytecode: &Bytecode<B>,
    proofs: &Vec<(Vec<F>, P)>,
    reduction: &Reduction,
) -> (r: Vec<F>)
    requires
        is_compression(*h),
        sizes_fit(bytecode.log_size as int),
        reduction.point@.len() == point_n_vars(
            bytecode.log_size as int,
            vm.n_instruction_columns as int,
        ),
        forall|i: int| 0 <= i < proofs@.len() ==> (#[trigger] proofs@[i]).0@.len() >= 8,
    ensures
        fseq(r@) == unified_recursion_input(*h, *vm, *bytecode, proofs@, *reduction),
{
    let sizes: (usize, usize, usize) = claim_sizes(bytecode.log_size, vm.n_instruction_columns);
    let claim = compute_reduced_claim(reduction);
    let mut hashes: Vec<Digest> = Vec::new();
    push_leading_digests(&mut hashes, proofs);
    proof {
        let v = leading_digests(proofs@);
        assert(digests(Seq::<Digest>::empty()) + v =~= v);
    }
    let agg = chain_digests(h, hashes.as_slice());
    let hash = bind_hash(h, vm, &bytecode.hash);
    layout_unified(&agg, &claim, sizes.0, &hash)
}

/// Build the witness of the unified recursion.
pub fn build_unified_witness<P>(
    vm: &VmParams,
    proofs: &Vec<(Vec<F>, P)>,
    verified: &Vec<Verified>,
    transcript: &Vec<F>,
    public_memory_len: usize,
) -> (r: Witness)
    requires
        proofs@.len() == verified@.len(),
        memories_fit(*vm, proofs@),
        public_memory_len + 3 + proofs@.len() + flat(
            unified_parts(*vm, proofs@, verified@, fseq(transcript@)),
        ).len() <= usize::MAX,
    ensures
        fseq(r.private_input@) == recursion_private_input(
            proofs@.len() as int,
            0,
            unified_parts(*vm, proofs@, verified@, fseq(transcript@)),
            public_memory_len as int,
        ),
        vec_views(r.merkle_paths@) == all_paths(verified@),
{
    let mut parts: Vec<Vec<F>> = Vec::new();
    push_source_blocks(&mut parts, vm, proofs, verified);
    let ghost blocks = source_blocks(*vm, proofs@, verified@);
    assert(vec_views(Seq::<Vec<F>>::empty()) + blocks =~= blocks);
    let ghost before = parts@;
    parts.push(crate::slices::copy_slice(transcript.as_slice()));
    proof {
        assert(vec_views(parts@) =~= vec_views(before).push(fseq(transcript@)));
        assert(vec_views(parts@).len() == parts@.len());
    }
    let private_input = layout_private_input(proofs.len(), 0, &parts, public_memory_len);
    let mut merkle_paths: Vec<Vec<F>> = Vec::new();
    push_all_paths(&mut merkle_paths, verified);
    assert(vec_views(Seq::<Vec<F>>::empty()) + all_paths(verified@) =~= all_paths(verified@));
    Witness { private_input, merkle_paths }
}

/// The private input of the unified recursion fits a machine word.
pub open spec fn unified_fits<H: Fn(Digest, Digest) -> Digest, B, P>(
    h: H,
    vm: VmParams,
    bytecode: Bytecode<B>,
    proofs: Seq<(Vec<F>, P)>,
    verified: Seq<Verified>,
    reduction: Reduction,
) -> bool {
    let input = unified_recursion_input(h, vm, bytecode, proofs, reduction);
    let parts = unified_parts(vm, proofs, verified, fseq(reduction.transcript@));
    next_pow2(vm.input_start + input.len()) + 3 + proofs.len() + flat(parts).len() <= usize::MAX
}

/// `proof` is what `prove` gives for a public input and a witness with the given private
/// input and authentication paths.
pub open spec fn proved_with_paths<B, P, Z: Fn(&Bytecode<B>, &Vec<F>, &Witness, usize) -> P>(
    prove: Z,
    bytecode: Bytecode<B>,
    public_input: Vec<F>,
    private_input: Seq<int>,
    paths: Seq<Seq<int>>,
    rate: usize,
    proof: P,
) -> bool {
    exists|w: Witness|
        fseq(w.private_input@) == private_input && vec_views(w.merkle_paths@) == paths
            && #[trigger] call_ensures(prove, (&bytecode, &public_input, &w, rate), proof)
}

/// `prove` can be called for the given public input, private input and authentication
/// paths.
pub open spec fn proves_with_paths<B, P, Z: Fn(&Bytecode<B>, &Vec<F>, &Witness, usize) -> P>(
    prove: Z,
    bytecode: Bytecode<B>,
    public_input: Seq<int>,
    private_input: Seq<int>,
    paths: Seq<Seq<int>>,
    rate: usize,
) -> bool {
    forall|pi: Vec<F>, w: Witness|
        fseq(pi@) == public_input && fseq(w.private_input@) == private_input && vec_views(
            w.merkle_paths@,
        ) == paths ==> #[trigger] call_requires(prove, (&bytecode, &pi, &w, rate))
}

/// `prove` can be called for the verified children and the reduction of their claims.
pub open spec fn unified_provable<
    H: Fn(Digest, Digest) -> Digest,
    B,
    P,
    Z: Fn(&Bytecode<B>, &Vec<F>, &Witness, usize) -> P,
>(
    h: H,
    vm: VmParams,
    prove: Z,
    bytecode: Bytecode<B>,
    proofs: Seq<(Vec<F>, P)>,
    verified: Seq<Verified>,
    reduction: Reduction,
    rate: usize,
) -> bool {
    let input = unified_recursion_input(h, vm, bytecode, proofs, reduction);
    proves_with_paths(
        prove,
        bytecode,
        input,
        recursion_private_input(
            proofs.len() as int,
            0,
            unified_parts(vm, proofs, verified, fseq(reduction.transcript@)),
            next_pow2(vm.input_start + input.len()),
        ),
        all_paths(verified),
        rate,
    )
}

/// `result` holds the public input of the unified recursion over the children, and what
/// `prove` gives for it.
pub open spec fn unified_recursion_proved<
    H: Fn(Digest, Digest) -> Digest,
    B,
    P,
    Z: Fn(&Bytecode<B>, &Vec<F>, &Witness, usize) -> P,
>(
    h: H,
    vm: VmParams,
    prove: Z,
    bytecode: Bytecode<B>,
    proofs: Seq<(Vec<F>, P)>,
    verified: Seq<Verified>,
    reduction: Reduction,
    rate: usize,
    result: (P, Vec<F>),
) -> bool {
    &&& fseq(result.1@) == unified_recursion_input(h, vm, bytecode, proofs, reduction)
    &&& proved_with_paths(
        prove,
        bytecode,
        result.1,
        recursion_private_input(
            proofs.len() as int,
            0,
            unified_parts(vm, proofs, verified, fseq(reduction.transcript@)),
            next_pow2(vm.input_start + result.1@.len()),
        ),
        all_paths(verified),
        rate,
        result.0,
    )
}

/// A proof with its public input that the unified circuit can verify: the public input
/// holds a claim on the program, and verification succeeds.
pub open spec fn acceptable<B, P, V: Fn(&Bytecode<B>, &Vec<F>, &P) -> Result<Verified, String>>(
    vm: VmParams,
    verify: V,
    bytecode: Bytecode<B>,
    c: (Vec<F>, P),
) -> bool {
    let n_vars = point_n_vars(bytecode.log_size as int, vm.n_instruction_columns as int);
    &&& 8 + claim_len(n_vars) <= c.0@.len()
    &&& next_pow2(vm.input_start + c.0@.len()) <= usize::MAX
    &&& call_requires(verify, (&bytecode, &c.0, &c.1))
    &&& forall|o: Result<Verified, String>| #[trigger]
        call_ensures(verify, (&bytecode, &c.0, &c.1), o) ==> o is Ok
}

/// Proofs that one step of the unified recursion takes: they verify, and whatever the
/// verifications and the reduction of the claims are, the claims can be reduced, the
/// private input fits a machine word, and the step can be proved.
pub open spec fn recursion_ready<
    H: Fn(Digest, Digest) -> Digest,
    B,
    P,
    S,
    V: Fn(&Bytecode<B>, &Vec<F>, &P) -> Result<Verified, String>,
    G: Fn(&Vec<Evaluation>) -> (S, EF),
    R: Fn(S, &Bytecode<B>, &Vec<Evaluation>, &Vec<EF>, EF) -> Reduction,
    Z: Fn(&Bytecode<B>, &Vec<F>, &Witness, usize) -> P,
>(
    h: H,
    vm: VmParams,
    verify: V,
    begin: G,
    sumcheck: R,
    prove: Z,
    bytecode: Bytecode<B>,
    rate: usize,
    proofs: Seq<(Vec<F>, P)>,
) -> bool {
    let cols = vm.n_instruction_columns as int;
    let n_vars = point_n_vars(bytecode.log_size as int, cols);
    &&& 0 < proofs.len() <= MAX_INNER_PROOFS
    &&& forall|i: int|
        0 <= i < proofs.len() ==> acceptable(vm, verify, bytecode, #[trigger] proofs[i])
    &&& forall|verified: Seq<Verified>| #[trigger]
        verified_by(verify, bytecode, proofs, verified) ==> reduces(
            begin,
            sumcheck,
            bytecode,
            paired_claims(proofs, verified, 8, n_vars),
            cols,
        )
    &&& forall|verified: Seq<Verified>, reduction: Reduction|
        verified_by(verify, bytecode, proofs, verified) && is_reduction(
            begin,
            sumcheck,
            bytecode,
            paired_claims(proofs, verified, 8, n_vars),
            reduction,
        ) ==> #[trigger] unified_fits(h, vm, bytecode, proofs, verified, reduction)
            && unified_provable(h, vm, prove, bytecode, proofs, verified, reduction, rate)
}

/// `result` is what one step of the unified recursion gives.
pub open spec fn unified_recursion_result<
    H: Fn(Digest, Digest) -> Digest,
    B,
    P,
    S,
    V: Fn(&Bytecode<B>, &Vec<F>, &P) -> Result<Verified, String>,
    G: Fn(&Vec<Evaluation>) -> (S, EF),
    R: Fn(S, &Bytecode<B>, &Vec<Evaluation>, &Vec<EF>, EF) -> Reduction,
    Z: Fn(&Bytecode<B>, &Vec<F>, &Witness, usize) -> P,
>(
    h: H,
    vm: VmParams,
    verify: V,
    begin: G,
    sumcheck: R,
    prove: Z,
    bytecode: Bytecode<B>,
    rate: usize,
    proofs: Seq<(Vec<F>, P)>,
    result: (P, Vec<F>),
) -> bool {
    exists|verified: Seq<Verified>, reduction: Reduction|
        verified_by(verify, bytecode, proofs, verified) && is_reduction(
            begin,
            sumcheck,
            bytecode,
            paired_claims(
                proofs,
                verified,
                8,
                point_n_vars(bytecode.log_size as int, vm.n_instruction_columns as int),
            ),
            reduction,
        ) && #[trigger] unified_recursion_proved(
            h,
            vm,
            prove,
            bytecode,
            proofs,
            verified,
            reduction,
            rate,
            result,
        )
}

/// Prove the verification of proofs of the unified circuit with the unified circuit;
/// returns the proof and its public input.
pub fn prove_unified_recursion<
    H: Fn(Digest, Digest) -> Digest,
    B,
    P,
    S,
    V: Fn(&Bytecode<B>, &Vec<F>, &P) -> Result<Verified, String>,
    G: Fn(&Vec<Evaluation>) -> (S, EF),
    R: Fn(S, &Bytecode<B>, &Vec<Evaluation>, &Vec<EF>, EF) -> Reduction,
    Z: Fn(&Bytecode<B>, &Vec<F>, &Witness, usize) -> P,
>(
    h: &H,
    vm: &VmParams,
    verify: &V,
    begin: &G,
    sumcheck: &R,
    prove: &Z,
    inner_proofs: &Vec<(Vec<F>, P)>,
    bytecode: &Bytecode<B>,
    log_inv_rate: usize,
) -> (r: (P, Vec<F>))
    requires
        is_compression(*h),
        sizes_fit(bytecode.log_size as int),
        recursion_ready(
            *h,
            *vm,
            *verify,
            *begin,
            *sumcheck,
            *prove,
            *bytecode,
            log_inv_rate,
            inner_proofs@,
        ),
    ensures
        unified_recursion_result(
            *h,
            *vm,
            *verify,
            *begin,
            *sumcheck,
            *prove,
            *bytecode,
            log_inv_rate,
            inner_proofs@,
            r,
        ),
{
    let sizes: (usize, usize, usize) = claim_sizes(bytecode.log_size, vm.n_instruction_columns);
    proof {
        assert forall|i: int| 0 <= i < inner_proofs@.len() implies acceptable(
            *vm,
            *verify,
            *bytecode,
            #[trigger] inner_proofs@[i],
        ) by {}
        assert(claims_present(inner_proofs@, 8, sizes.0 as int));
        assert(memories_fit(*vm, inner_proofs@));
    }
    let verified = verify_children(verify, bytecode, inner_proofs);
    let claims = build_unified_claims(inner_proofs, &verified, sizes.0);
    let reduction = do_bytecode_sumcheck_reduction(
        begin,
        sumcheck,
        bytecode,
        &claims,
        vm.n_instruction_columns,
    );
    assert forall|i: int| 0 <= i < inner_proofs@.len() implies (#[trigger] inner_proofs@[i]).0@.len()
        >= 8 by {
        assert(8 + claim_len(sizes.0 as int) <= inner_proofs@[i].0@.len());
    }
    let public_input = build_unified_recursion_input(h, vm, bytecode, inner_proofs, &reduction);
    proof {
        assert(fseq(public_input@).len() == public_input@.len());
        assert(unified_fits(*h, *vm, *bytecode, inner_proofs@, verified@, reduction));
    }
    let memory = build_public_memory(vm, &public_input);
    let witness = build_unified_witness(
        vm,
        inner_proofs,
        &verified,
        &reduction.transcript,
        memory.len(),
    );
    let proof = prove(bytecode, &public_input, &witness, log_inv_rate);
    assert(proved_with_paths(
        *prove,
        *bytecode,
        public_input,
        recursion_private_input(
            inner_proofs@.len() as int,
            0,
            unified_parts(*vm, inner_proofs@, verified@, fseq(reduction.transcript@)),
            memory@.len() as int,
        ),
        all_paths(verified@),
        log_inv_rate,
        proof,
    ));
    let result = (proof, public_input);
    proof {
        assert(unified_recursion_proved(
            *h,
            *vm,
            *prove,
            *bytecode,
            inner_proofs@,
            verified@,
            reduction,
            log_inv_rate,
            result,
        ));
    }
    result
}

// The hybrid recursion.

/// The claims on a program after reduction: the reduced claim and its transcript, or the
/// claim on the zero point and no transcript where there was nothing to reduce.
pub open spec fn is_settled<
    B,
    S,
    G: Fn(&Vec<Evaluation>) -> (S, EF),
    R: Fn(S, &Bytecode<B>, &Vec<Evaluation>, &Vec<EF>, EF) -> Reduction,
>(
    begin: G,
    sumcheck: R,
    bytecode: Bytecode<B>,
    n_vars: int,
    claims: Seq<Claim>,
    claim: Seq<int>,
    transcript: Seq<int>,
) -> bool {
    if claims.len() == 0 {
        claim == default_claim(n_vars, bytecode.zero_eval@) && transcript.len() == 0
    } else {
        exists|r: Reduction|
            claim == flat_claim(eseq(r.point@), r.value@) && transcript == fseq(r.transcript@)
                && #[trigger] is_reduction(begin, sumcheck, bytecode, claims, r)
    }
}

/// The claims on a program can be reduced, if there are any.
pub open spec fn settles<
    B,
    S,
    G: Fn(&Vec<Evaluation>) -> (S, EF),
    R: Fn(S, &Bytecode<B>, &Vec<Evaluation>, &Vec<EF>, EF) -> Reduction,
>(begin: G, sumcheck: R, bytecode: Bytecode<B>, claims: Seq<Claim>, columns: int) -> bool {
    claims.len() > 0 ==> reduces(begin, sumcheck, bytecode, claims, columns)
}

/// Reduce the claims on a program, if there are any.
fn settle_claims<
    B,
    S,
    G: Fn(&Vec<Evaluation>) -> (S, EF),
    R: Fn(S, &Bytecode<B>, &Vec<Evaluation>, &Vec<EF>, EF) -> Reduction,
>(
    vm: &VmParams,
    begin: &G,
    sumcheck: &R,
    bytecode: &Bytecode<B>,
    n_vars: usize,
    claims: &Vec<Evaluation>,
) -> (r: (Vec<F>, Vec<F>))
    requires
        n_vars == point_n_vars(bytecode.log_size as int, vm.n_instruction_columns as int),
        n_vars * 5 <= usize::MAX,
        settles(
            *begin,
            *sumcheck,
            *bytecode,
            claim_views(claims@),
            vm.n_instruction_columns as int,
        ),
    ensures
        is_settled(
            *begin,
            *sumcheck,
            *bytecode,
            n_vars as int,
            claim_views(claims@),
            fseq(r.0@),
            fseq(r.1@),
        ),
        r.0@.len() == claim_len(n_vars as int),
{
    if claims.len() == 0 {
        (build_default_claim(n_vars, bytecode.zero_eval), Vec::new())
    } else {
        let reduction = do_bytecode_sumcheck_reduction(
            begin,
            sumcheck,
            bytecode,
            claims,
            vm.n_instruction_columns,
        );
        let claim = compute_reduced_claim(&reduction);
        assert(is_reduction(*begin, *sumcheck, *bytecode, claim_views(claims@), reduction));
        (claim, reduction.transcript)
    }
}

/// The public input of the hybrid recursion.
pub open spec fn hybrid_recursion_input<H: Fn(Digest, Digest) -> Digest, B, P>(
    h: H,
    vm: VmParams,
    hybrid: Bytecode<B>,
    inner: Bytecode<B>,
    self_proofs: Seq<(Vec<F>, P)>,
    inner_proofs: Seq<(Vec<F>, P)>,
    inner_claim: Seq<int>,
    self_claim: Seq<int>,
) -> Seq<int> {
    let cols = vm.n_instruction_columns as int;
    hybrid_layout(
        chain(h, leading_digests(self_proofs) + leading_digests(inner_proofs)),
        inner_claim,
        point_n_vars(inner.log_size as int, cols),
        self_claim,
        point_n_vars(hybrid.log_size as int, cols),
        bound_hash(h, vm, inner.hash),
        bound_hash(h, vm, hybrid.hash),
    )
}

/// Build the public input of the hybrid recursion.
pub fn build_hybrid_recursion_input<H: Fn(Digest, Digest) -> Digest, B, P>(
    h: &H,
    vm: &VmParams,
    hybrid: &Bytecode<B>,
    inner: &Bytecode<B>,
    self_proofs: &Vec<(Vec<F>, P)>,
    inner_proofs: &Vec<(Vec<F>, P)>,
    inner_claim: &Vec<F>,
    self_claim: &Vec<F>,
) -> (r: Vec<F>)
    requires
        is_compression(*h),
        sizes_fit(hybrid.log_size as int),
        sizes_fit(inner.log_size as int),
        inner_claim@.len() == claim_len(
            point_n_vars(inner.log_size as int, vm.n_instruction_columns as int),
        ),
        self_claim@.len() == claim_len(
            point_n_vars(hybrid.log_size as int, vm.n_instruction_columns as int),
        ),
        forall|i: int| 0 <= i < self_proofs@.len() ==> (#[trigger] self_proofs@[i]).0@.len() >= 8,
        forall|i: int|
            0 <= i < inner_proofs@.len() ==> (#[trigger] inner_proofs@[i]).0@.len() >= 8,
    ensures
        fseq(r@) == hybrid_recursion_input(
            *h,
            *vm,
            *hybrid,
            *inner,
            self_proofs@,
            inner_proofs@,
            fseq(inner_claim@),
            fseq(self_claim@),
        ),
{
    let cols: usize = vm.n_instruction_columns;
    let inner_sizes: (usize, usize, usize) = claim_sizes(inner.log_size, cols);
    let self_sizes: (usize, usize, usize) = claim_sizes(hybrid.log_size, cols);
    let mut hashes: Vec<Digest> = Vec::new();
    push_leading_digests(&mut hashes, self_proofs);
    push_leading_digests(&mut hashes, inner_proofs);
    proof {
        let v = leading_digests(self_proofs@);
        assert(digests(Seq::<Digest>::empty()) + v =~= v);
    }
    let agg = chain_digests(h, hashes.as_slice());
    let inner_hash = bind_hash(h, vm, &inner.hash);
    let self_hash = bind_hash(h, vm, &hybrid.hash);
    layout_hybrid(
        &agg,
        inner_claim,
        inner_sizes.0,
        self_claim,
        self_sizes.0,
        &inner_hash,
        &self_hash,
    )
}

/// The parts of the hybrid recursion's private input: the self proofs, the inner proofs,
/// and the transcripts of the two reductions.
pub open spec fn hybrid_parts<P>(
    vm: VmParams,
    self_proofs: Seq<(Vec<F>, P)>,
    self_verified: Seq<Verified>,
    inner_proofs: Seq<(Vec<F>, P)>,
    inner_verified: Seq<Verified>,
    inner_transcript: Seq<int>,
    self_transcript: Seq<int>,
) -> Seq<Seq<int>> {
    (source_blocks(vm, self_proofs, self_verified) + source_blocks(
        vm,
        inner_proofs,
        inner_verified,
    )).push(inner_transcript).push(self_transcript)
}

/// Build the witness of the hybrid recursion.
pub fn build_hybrid_witness<P>(
    vm: &VmParams,
    self_proofs: &Vec<(Vec<F>, P)>,
    self_verified: &Vec<Verified>,
    inner_proofs: &Vec<(Vec<F>, P)>,
    inner_verified: &Vec<Verified>,
    inner_transcript: &Vec<F>,
    self_transcript: &Vec<F>,
    public_memory_len: usize,
) -> (r: Witness)
    requires
        self_proofs@.len() == self_verified@.len(),
        inner_proofs@.len() == inner_verified@.len(),
        memories_fit(*vm, self_proofs@),
        memories_fit(*vm, inner_proofs@),
        public_memory_len + 4 + self_proofs@.len() + inner_proofs@.len() + flat(
            hybrid_parts(
                *vm,
                self_proofs@,
                self_verified@,
                inner_proofs@,
                inner_verified@,
                fseq(inner_transcript@),
                fseq(self_transcript@),
            ),
        ).len() <= usize::MAX,
    ensures
        fseq(r.private_input@) == recursion_private_input(
            self_proofs@.len() as int,
            inner_proofs@.len() as int,
            hybrid_parts(
                *vm,
                self_proofs@,
                self_verified@,
                inner_proofs@,
                inner_verified@,
                fseq(inner_transcript@),
                fseq(self_transcript@),
            ),
            public_memory_len as int,
        ),
        vec_views(r.merkle_paths@) == all_paths(self_verified@) + all_paths(inner_verified@),
{
    let mut parts: Vec<Vec<F>> = Vec::new();
    push_source_blocks(&mut parts, vm, self_proofs, self_verified);
    push_source_blocks(&mut parts, vm, inner_proofs, inner_verified);
    let ghost blocks = source_blocks(*vm, self_proofs@, self_verified@);
    assert(vec_views(Seq::<Vec<F>>::empty()) + blocks =~= blocks);
    let ghost before = parts@;
    parts.push(crate::slices::copy_slice(inner_transcript.as_slice()));
    parts.push(crate::slices::copy_slice(self_transcript.as_slice()));
    proof {
        assert(vec_views(parts@) =~= vec_views(before).push(fseq(inner_transcript@)).push(
            fseq(self_transcript@),
        ));
        assert(vec_views(parts@).len() == parts@.len());
    }
    let private_input = layout_private_input(
        self_proofs.len(),
        inner_proofs.len(),
        &parts,
        public_memory_len,
    );
    let mut merkle_paths: Vec<Vec<F>> = Vec::new();
    push_all_paths(&mut merkle_paths, self_verified);
    push_all_paths(&mut merkle_paths, inner_verified);
    assert(vec_views(Seq::<Vec<F>>::empty()) + all_paths(self_verified@) =~= all_paths(
        self_verified@,
    ));
    Witness { private_input, merkle_paths }
}

/// What the hybrid recursion proves over: the children with their verifications, and
/// the claims on both programs with the transcripts of their reductions.
pub struct HybridStep<P> {
    pub self_proofs: Seq<(Vec<F>, P)>,
    pub self_verified: Seq<Verified>,
    pub inner_proofs: Seq<(Vec<F>, P)>,
    pub inner_verified: Seq<Verified>,
    pub inner_claim: Seq<int>,
    pub inner_transcript: Seq<int>,
    pub self_claim: Seq<int>,
    pub self_transcript: Seq<int>,
}

/// The parts of the private input of a step.
pub open spec fn step_parts<P>(vm: VmParams, s: HybridStep<P>) -> Seq<Seq<int>> {
    hybrid_parts(
        vm,
        s.self_proofs,
        s.self_verified,
        s.inner_proofs,
        s.inner_verified,
        s.inner_transcript,
        s.self_transcript,
    )
}

/// The public input of a step.
pub open spec fn step_input<H: Fn(Digest, Digest) -> Digest, B, P>(
    h: H,
    vm: VmParams,
    hybrid: Bytecode<B>,
    inner: Bytecode<B>,
    s: HybridStep<P>,
) -> Seq<int> {
    hybrid_recursion_input(
        h,
        vm,
        hybrid,
        inner,
        s.self_proofs,
        s.inner_proofs,
        s.inner_claim,
        s.self_claim,
    )
}

/// The private input of a step fits a machine word.
pub open spec fn hybrid_fits<H: Fn(Digest, Digest) -> Digest, B, P>(
    h: H,
    vm: VmParams,
    hybrid: Bytecode<B>,
    inner: Bytecode<B>,
    s: HybridStep<P>,
) -> bool {
    next_pow2(vm.input_start + step_input(h, vm, hybrid, inner, s).len()) + 4
        + s.self_proofs.len() + s.inner_proofs.len() + flat(step_parts(vm, s)).len() <= usize::MAX
}

/// `result` holds the public input of a step, and what `prove` gives for it.
pub open spec fn hybrid_recursion_proved<
    H: Fn(Digest, Digest) -> Digest,
    B,
    P,
    Z: Fn(&Bytecode<B>, &Vec<F>, &Witness, usize) -> P,
>(
    h: H,
    vm: VmParams,
    prove: Z,
    hybrid: Bytecode<B>,
    inner: Bytecode<B>,
    s: HybridStep<P>,
    rate: usize,
    result: (P, Vec<F>),
) -> bool {
    &&& fseq(result.1@) == step_input(h, vm, hybrid, inner, s)
    &&& proved_with_paths(
        prove,
        hybrid,
        result.1,
        recursion_private_input(
            s.self_proofs.len() as int,
            s.inner_proofs.len() as int,
            step_parts(vm, s),
            next_pow2(vm.input_start + result.1@.len()),
        ),
        all_paths(s.self_verified) + all_paths(s.inner_verified),
        rate,
        result.0,
    )
}

/// `prove` can be called for a step.
pub open spec fn hybrid_provable<
    H: Fn(Digest, Digest) -> Digest,
    B,
    P,
    Z: Fn(&Bytecode<B>, &Vec<F>, &Witness, usize) -> P,
>(
    h: H,
    vm: VmParams,
    prove: Z,
    hybrid: Bytecode<B>,
    inner: Bytecode<B>,
    s: HybridStep<P>,
    rate: usize,
) -> bool {
    let input = step_input(h, vm, hybrid, inner, s);
    proves_with_paths(
        prove,
        hybrid,
        input,
        recursion_private_input(
            s.self_proofs.len() as int,
            s.inner_proofs.len() as int,
            step_parts(vm, s),
            next_pow2(vm.input_start + input.len()),
        ),
        all_paths(s.self_verified) + all_paths(s.inner_verified),
        rate,
    )
}

/// The step verifies the given children and settles the claims on both programs.
pub open spec fn is_hybrid_step<
    B,
    P,
    S,
    V: Fn(&Bytecode<B>, &Vec<F>, &P) -> Result<Verified, String>,
    G: Fn(&Vec<Evaluation>) -> (S, EF),
    R: Fn(S, &Bytecode<B>, &Vec<Evaluation>, &Vec<EF>, EF) -> Reduction,
>(
    vm: VmParams,
    verify: V,
    begin: G,
    sumcheck: R,
    hybrid: Bytecode<B>,
    inner: Bytecode<B>,
    self_proofs: Seq<(Vec<F>, P)>,
    inner_proofs: Seq<(Vec<F>, P)>,
    s: HybridStep<P>,
) -> bool {
    let cols = vm.n_instruction_columns as int;
    let inner_n_vars = point_n_vars(inner.log_size as int, cols);
    let self_n_vars = point_n_vars(hybrid.log_size as int, cols);
    &&& s.self_proofs == self_proofs
    &&& s.inner_proofs == inner_proofs
    &&& verified_by(verify, hybrid, self_proofs, s.self_verified)
    &&& verified_by(verify, inner, inner_proofs, s.inner_verified)
    &&& is_settled(
        begin,
        sumcheck,
        inner,
        inner_n_vars,
        hybrid_inner_claims(self_proofs, s.inner_verified, inner_n_vars, inner.zero_eval@),
        s.inner_claim,
        s.inner_transcript,
    )
    &&& is_settled(
        begin,
        sumcheck,
        hybrid,
        self_n_vars,
        paired_claims(
            self_proofs,
            s.self_verified,
            8 + claim_len_padded(inner_n_vars),
            self_n_vars,
        ),
        s.self_claim,
        s.self_transcript,
    )
}

/// A proof of the hybrid circuit with its public input that the hybrid circuit can
/// verify: the public input holds the claims on both programs, and verification succeeds.
pub open spec fn self_acceptable<
    B,
    P,
    V: Fn(&Bytecode<B>, &Vec<F>, &P) -> Result<Verified, String>,
>(vm: VmParams, verify: V, hybrid: Bytecode<B>, inner: Bytecode<B>, c: (Vec<F>, P)) -> bool {
    let cols = vm.n_instruction_columns as int;
    &&& 8 + claim_len_padded(point_n_vars(inner.log_size as int, cols)) + claim_len(
        point_n_vars(hybrid.log_size as int, cols),
    ) <= c.0@.len()
    &&& next_pow2(vm.input_start + c.0@.len()) <= usize::MAX
    &&& call_requires(verify, (&hybrid, &c.0, &c.1))
    &&& forall|o: Result<Verified, String>| #[trigger]
        call_ensures(verify, (&hybrid, &c.0, &c.1), o) ==> o is Ok
}

/// A proof of the inner circuit with its public input that the hybrid circuit can verify:
/// the public input starts with a digest, and verification succeeds.
pub open spec fn inner_acceptable<
    B,
    P,
    V: Fn(&Bytecode<B>, &Vec<F>, &P) -> Result<Verified, String>,
>(vm: VmParams, verify: V, inner: Bytecode<B>, c: (Vec<F>, P)) -> bool {
    &&& 8 <= c.0@.len()
    &&& next_pow2(vm.input_start + c.0@.len()) <= usize::MAX
    &&& call_requires(verify, (&inner, &c.0, &c.1))
    &&& forall|o: Result<Verified, String>| #[trigger]
        call_ensures(verify, (&inner, &c.0, &c.1), o) ==> o is Ok
}

/// Proofs that one step of the hybrid recursion takes: they verify, and whatever the
/// verifications and the reductions of the claims are, the claims can be reduced, the
/// private input fits a machine word, and the step can be proved.
pub open spec fn hybrid_ready<
    H: Fn(Digest, Digest) -> Digest,
    B,
    P,
    S,
    V: Fn(&Bytecode<B>, &Vec<F>, &P) -> Result<Verified, String>,
    G: Fn(&Vec<Evaluation>) -> (S, EF),
    R: Fn(S, &Bytecode<B>, &Vec<Evaluation>, &Vec<EF>, EF) -> Reduction,
    Z: Fn(&Bytecode<B>, &Vec<F>, &Witness, usize) -> P,
>(
    h: H,
    vm: VmParams,
    verify: V,
    begin: G,
    sumcheck: R,
    prove: Z,
    hybrid: Bytecode<B>,
    inner: Bytecode<B>,
    rate: usize,
    self_proofs: Seq<(Vec<F>, P)>,
    inner_proofs: Seq<(Vec<F>, P)>,
) -> bool {
    let cols = vm.n_instruction_columns as int;
    let inner_n_vars = point_n_vars(inner.log_size as int, cols);
    let self_n_vars = point_n_vars(hybrid.log_size as int, cols);
    &&& self_proofs.len() + inner_proofs.len() > 0
    &&& self_proofs.len() <= MAX_INNER_PROOFS
    &&& inner_proofs.len() <= MAX_INNER_PROOFS
    &&& forall|i: int|
        0 <= i < self_proofs.len() ==> self_acceptable(
            vm,
            verify,
            hybrid,
            inner,
            #[trigger] self_proofs[i],
        )
    &&& forall|i: int|
        0 <= i < inner_proofs.len() ==> inner_acceptable(
            vm,
            verify,
            inner,
            #[trigger] inner_proofs[i],
        )
    &&& forall|verified: Seq<Verified>| #[trigger]
        verified_by(verify, inner, inner_proofs, verified) ==> settles(
            begin,
            sumcheck,
            inner,
            hybrid_inner_claims(self_proofs, verified, inner_n_vars, inner.zero_eval@),
            cols,
        )
    &&& forall|verified: Seq<Verified>| #[trigger]
        verified_by(verify, hybrid, self_proofs, verified) ==> settles(
            begin,
            sumcheck,
            hybrid,
            paired_claims(
                self_proofs,
                verified,
                8 + claim_len_padded(inner_n_vars),
                self_n_vars,
            ),
            cols,
        )
    &&& forall|s: HybridStep<P>|
        is_hybrid_step(
            vm,
            verify,
            begin,
            sumcheck,
            hybrid,
            inner,
            self_proofs,
            inner_proofs,
            s,
        ) ==> #[trigger] hybrid_fits(h, vm, hybrid, inner, s) && hybrid_provable(
            h,
            vm,
            prove,
            hybrid,
            inner,
            s,
            rate,
        )
}

/// `result` is what one step of the hybrid recursion gives.
pub open spec fn hybrid_recursion_result<
    H: Fn(Digest, Digest) -> Digest,
    B,
    P,
    S,
    V: Fn(&Bytecode<B>, &Vec<F>, &P) -> Result<Verified, String>,
    G: Fn(&Vec<Evaluation>) -> (S, EF),
    R: Fn(S, &Bytecode<B>, &Vec<Evaluation>, &Vec<EF>, EF) -> Reduction,
    Z: Fn(&Bytecode<B>, &Vec<F>, &Witness, usize) -> P,
>(
    h: H,
    vm: VmParams,
    verify: V,
    begin: G,
    sumcheck: R,
    prove: Z,
    hybrid: Bytecode<B>,
    inner: Bytecode<B>,
    rate: usize,
    self_proofs: Seq<(Vec<F>, P)>,
    inner_proofs: Seq<(Vec<F>, P)>,
    result: (P, Vec<F>),
) -> bool {
    exists|s: HybridStep<P>|
        is_hybrid_step(
            vm,
            verify,
            begin,
            sumcheck,
            hybrid,
            inner,
            self_proofs,
            inner_proofs,
            s,
        ) && #[trigger] hybrid_recursion_proved(h, vm, prove, hybrid, inner, s, rate, result)
}

/// Prove the verification of proofs of the hybrid circuit and of the inner circuit with
/// the hybrid circuit; returns the proof and its public input.
pub fn prove_hybrid_recursion<
    H: Fn(Digest, Digest) -> Digest,
    B,
    P,
    S,
    V: Fn(&Bytecode<B>, &Vec<F>, &P) -> Result<Verified, String>,
    G: Fn(&Vec<Evaluation>) -> (S, EF),
    R: Fn(S, &Bytecode<B>, &Vec<Evaluation>, &Vec<EF>, EF) -> Reduction,
    Z: Fn(&Bytecode<B>, &Vec<F>, &Witness, usize) -> P,
>(
    h: &H,
    vm: &VmParams,
    verify: &V,
    begin: &G,
    sumcheck: &R,
    prove: &Z,
    self_proofs: &Vec<(Vec<F>, P)>,
    inner_proofs: &Vec<(Vec<F>, P)>,
    hybrid_bytecode: &Bytecode<B>,
    inner_bytecode: &Bytecode<B>,
    log_inv_rate: usize,
) -> (r: (P, Vec<F>))
    requires
        is_compression(*h),
        sizes_fit(hybrid_bytecode.log_size as int),
        sizes_fit(inner_bytecode.log_size as int),
        hybrid_ready(
            *h,
            *vm,
            *verify,
            *begin,
            *sumcheck,
            *prove,
            *hybrid_bytecode,
            *inner_bytecode,
            log_inv_rate,
            self_proofs@,
            inner_proofs@,
        ),
    ensures
        hybrid_recursion_result(
            *h,
            *vm,
            *verify,
            *begin,
            *sumcheck,
            *prove,
            *hybrid_bytecode,
            *inner_bytecode,
            log_inv_rate,
            self_proofs@,
            inner_proofs@,
            r,
        ),
{
    let cols: usize = vm.n_instruction_columns;
    let self_sizes: (usize, usize, usize) = claim_sizes(hybrid_bytecode.log_size, cols);
    let inner_sizes: (usize, usize, usize) = claim_sizes(inner_bytecode.log_size, cols);
    let self_offset: usize = 8 + inner_sizes.2;
    proof {
        assert forall|i: int| 0 <= i < self_proofs@.len() implies self_acceptable(
            *vm,
            *verify,
            *hybrid_bytecode,
            *inner_bytecode,
            #[trigger] self_proofs@[i],
        ) by {}
        assert forall|i: int| 0 <= i < inner_proofs@.len() implies inner_acceptable(
            *vm,
            *verify,
            *inner_bytecode,
            #[trigger] inner_proofs@[i],
        ) by {}
        assert(claims_present(self_proofs@, self_offset as int, self_sizes.0 as int));
        assert(memories_fit(*vm, self_proofs@));
        assert(memories_fit(*vm, inner_proofs@));
    }

    // Verify the children.
    let self_verified = verify_children(verify, hybrid_bytecode, self_proofs);
    let inner_verified = verify_children(verify, inner_bytecode, inner_proofs);

    // Claims on both programs.
    proof {
        assert forall|i: int| 0 <= i < self_proofs@.len() implies 8 + claim_len(
            inner_sizes.0 as int,
        ) <= (#[trigger] self_proofs@[i]).0@.len() by {
            assert(self_offset + claim_len(self_sizes.0 as int) <= self_proofs@[i].0@.len());
        }
    }
    let inner_claims = build_hybrid_inner_claims(
        self_proofs,
        &inner_verified,
        inner_sizes.0,
        inner_bytecode.zero_eval,
    );
    let self_claims = build_hybrid_self_claims(
        self_proofs,
        &self_verified,
        self_offset,
        self_sizes.0,
    );

    // One claim per program.
    let (inner_claim, inner_transcript) = settle_claims(
        vm,
        begin,
        sumcheck,
        inner_bytecode,
        inner_sizes.0,
        &inner_claims,
    );
    let (self_claim, self_transcript) = settle_claims(
        vm,
        begin,
        sumcheck,
        hybrid_bytecode,
        self_sizes.0,
        &self_claims,
    );

    // Public and private input.
    let ghost step = HybridStep {
        self_proofs: self_proofs@,
        self_verified: self_verified@,
        inner_proofs: inner_proofs@,
        inner_verified: inner_verified@,
        inner_claim: fseq(inner_claim@),
        inner_transcript: fseq(inner_transcript@),
        self_claim: fseq(self_claim@),
        self_transcript: fseq(self_transcript@),
    };
    proof {
        assert(is_hybrid_step(
            *vm,
            *verify,
            *begin,
            *sumcheck,
            *hybrid_bytecode,
            *inner_bytecode,
            self_proofs@,
            inner_proofs@,
            step,
        ));
        assert(hybrid_fits(*h, *vm, *hybrid_bytecode, *inner_bytecode, step));
        assert forall|i: int| 0 <= i < self_proofs@.len() implies (
        #[trigger] self_proofs@[i]).0@.len() >= 8 by {
            assert(self_offset + claim_len(self_sizes.0 as int) <= self_proofs@[i].0@.len());
        }
    }
    let public_input = build_hybrid_recursion_input(
        h,
        vm,
        hybrid_bytecode,
        inner_bytecode,
        self_proofs,
        inner_proofs,
        &inner_claim,
        &self_claim,
    );
    assert(fseq(public_input@).len() == public_input@.len());
    let memory = build_public_memory(vm, &public_input);
    let witness = build_hybrid_witness(
        vm,
        self_proofs,
        &self_verified,
        inner_proofs,
        &inner_verified,
        &inner_transcript,
        &self_transcript,
        memory.len(),
    );
    let proof = prove(hybrid_bytecode, &public_input, &witness, log_inv_rate);
    assert(proved_with_paths(
        *prove,
        *hybrid_bytecode,
        public_input,
        recursion_private_input(
            self_proofs@.len() as int,
            inner_proofs@.len() as int,
            step_parts(*vm, step),
            memory@.len() as int,
        ),
        all_paths(self_verified@) + all_paths(inner_verified@),
        log_inv_rate,
        proof,
    ));
    let result = (proof, public_input);
    proof {
        assert(hybrid_recursion_proved(
            *h,
            *vm,
            *prove,
            *hybrid_bytecode,
            *inner_bytecode,
            step,
            log_inv_rate,
            result,
        ));
    }
    result
}

// Laws of the public inputs.

/// The public input of the unified recursion differs from that for raw batches with the
/// same hashes in the claim alone: it has the same length, starts with the same hash and
/// ends with the same digest of the program. So it holds a claim, and a machine word holds
/// its memory, as the unified circuit needs of the public input of a proof that it
/// verifies.
pub proof fn lemma_unified_result_shape<
    H: Fn(Digest, Digest) -> Digest,
    B,
    P,
    S,
    V: Fn(&Bytecode<B>, &Vec<F>, &P) -> Result<Verified, String>,
    G: Fn(&Vec<Evaluation>) -> (S, EF),
    R: Fn(S, &Bytecode<B>, &Vec<Evaluation>, &Vec<EF>, EF) -> Reduction,
    Z: Fn(&Bytecode<B>, &Vec<F>, &Witness, usize) -> P,
>(
    h: H,
    vm: VmParams,
    verify: V,
    begin: G,
    sumcheck: R,
    prove: Z,
    bytecode: Bytecode<B>,
    rate: usize,
    proofs: Seq<(Vec<F>, P)>,
    result: (P, Vec<F>),
)
    requires
        is_compression(h),
        recursion_ready(h, vm, verify, begin, sumcheck, prove, bytecode, rate, proofs),
        unified_recursion_result(
            h,
            vm,
            verify,
            begin,
            sumcheck,
            prove,
            bytecode,
            rate,
            proofs,
            result,
        ),
    ensures
        ({
            let x = fseq(result.1@);
            let d = default_unified_input(h, vm, leading_digests(proofs), bytecode);
            &&& x.len() == d.len()
            &&& x.len() >= 16
            &&& x.take(8) == d.take(8)
            &&& x.skip(x.len() - 8) == d.skip(d.len() - 8)
        }),
        8 + claim_len(
            point_n_vars(bytecode.log_size as int, vm.n_instruction_columns as int),
        ) <= result.1@.len(),
        next_pow2(vm.input_start + result.1@.len()) <= usize::MAX,
{
    let cols = vm.n_instruction_columns as int;
    let n_vars = point_n_vars(bytecode.log_size as int, cols);
    let (verified, reduction) = choose|verified: Seq<Verified>, reduction: Reduction|
        verified_by(verify, bytecode, proofs, verified) && is_reduction(
            begin,
            sumcheck,
            bytecode,
            paired_claims(proofs, verified, 8, n_vars),
            reduction,
        ) && #[trigger] unified_recursion_proved(
            h,
            vm,
            prove,
            bytecode,
            proofs,
            verified,
            reduction,
            rate,
            result,
        );
    assert(unified_fits(h, vm, bytecode, proofs, verified, reduction));
    assert(reduces(
        begin,
        sumcheck,
        bytecode,
        paired_claims(proofs, verified, 8, n_vars),
        cols,
    ));
    let x = fseq(result.1@);
    let d = default_unified_input(h, vm, leading_digests(proofs), bytecode);
    let claim = flat_claim(eseq(reduction.point@), reduction.value@);
    lemma_chain_digest(h, leading_digests(proofs));
    lemma_bound_hash_digest(h, vm, bytecode.hash);
    lemma_flat_claim_len(reduction);
    assert(x.len() == result.1@.len());
    assert(x.take(8) =~= d.take(8));
    assert(x.skip(x.len() - 8) =~= d.skip(d.len() - 8));
}

/// The digest of a program is a digest.
proof fn lemma_bound_hash_digest<H: Fn(Digest, Digest) -> Digest>(h: H, vm: VmParams, hash: Digest)
    requires
        is_compression(h),
    ensures
        is_digest(bound_hash(h, vm, hash)),
{
    lemma_compress(h, digest_view(hash), digest_view(vm.domain_sep));
}

/// A reduced claim holds its point and its value.
proof fn lemma_flat_claim_len(r: Reduction)
    ensures
        flat_claim(eseq(r.point@), r.value@).len() == claim_len(r.point@.len() as int),
{
    lemma_flat_coords_len(eseq(r.point@));
}

/// A settled claim has the length of a claim.
proof fn lemma_settled_len<
    B,
    S,
    G: Fn(&Vec<Evaluation>) -> (S, EF),
    R: Fn(S, &Bytecode<B>, &Vec<Evaluation>, &Vec<EF>, EF) -> Reduction,
>(
    begin: G,
    sumcheck: R,
    bytecode: Bytecode<B>,
    cols: int,
    claims: Seq<Claim>,
    claim: Seq<int>,
    transcript: Seq<int>,
)
    requires
        cols >= 0,
        settles(begin, sumcheck, bytecode, claims, cols),
        is_settled(
            begin,
            sumcheck,
            bytecode,
            point_n_vars(bytecode.log_size as int, cols),
            claims,
            claim,
            transcript,
        ),
    ensures
        claim.len() == claim_len(point_n_vars(bytecode.log_size as int, cols)),
{
    if claims.len() > 0 {
        let r = choose|r: Reduction|
            claim == flat_claim(eseq(r.point@), r.value@) && transcript == fseq(r.transcript@)
                && #[trigger] is_reduction(begin, sumcheck, bytecode, claims, r);
        lemma_flat_claim_len(r);
    }
}

/// The public input of the hybrid recursion differs from that for raw batches with the same
/// hashes in the claims alone: it has the same length, starts with the same hash and ends
/// with the same digests of the two programs; with no proofs of the hybrid circuit itself,
/// the claim on that circuit is the same too. So it holds both claims, and a machine word
/// holds its memory, as the hybrid circuit needs of the public input of a proof of itself.
pub proof fn lemma_hybrid_result_shape<
    H: Fn(Digest, Digest) -> Digest,
    B,
    P,
    S,
    V: Fn(&Bytecode<B>, &Vec<F>, &P) -> Result<Verified, String>,
    G: Fn(&Vec<Evaluation>) -> (S, EF),
    R: Fn(S, &Bytecode<B>, &Vec<Evaluation>, &Vec<EF>, EF) -> Reduction,
    Z: Fn(&Bytecode<B>, &Vec<F>, &Witness, usize) -> P,
>(
    h: H,
    vm: VmParams,
    verify: V,
    begin: G,
    sumcheck: R,
    prove: Z,
    hybrid: Bytecode<B>,
    inner: Bytecode<B>,
    rate: usize,
    self_proofs: Seq<(Vec<F>, P)>,
    inner_proofs: Seq<(Vec<F>, P)>,
    result: (P, Vec<F>),
)
    requires
        is_compression(h),
        hybrid_ready(
            h,
            vm,
            verify,
            begin,
            sumcheck,
            prove,
            hybrid,
            inner,
            rate,
            self_proofs,
            inner_proofs,
        ),
        hybrid_recursion_result(
            h,
            vm,
            verify,
            begin,
            sumcheck,
            prove,
            hybrid,
            inner,
            rate,
            self_proofs,
            inner_proofs,
            result,
        ),
    ensures
        ({
            let x = fseq(result.1@);
            let d = default_hybrid_input(
                h,
                vm,
                leading_digests(self_proofs) + leading_digests(inner_proofs),
                inner,
                hybrid,
            );
            let cols = vm.n_instruction_columns as int;
            let start = 8 + claim_len_padded(point_n_vars(inner.log_size as int, cols));
            let end = start + claim_len_padded(point_n_vars(hybrid.log_size as int, cols));
            &&& x.len() == d.len()
            &&& x.len() == end + 16
            &&& x.take(8) == d.take(8)
            &&& x.skip(x.len() - 16) == d.skip(d.len() - 16)
            &&& self_proofs.len() == 0 ==> x.subrange(start, end) == d.subrange(start, end)
        }),
        8 + claim_len_padded(
            point_n_vars(inner.log_size as int, vm.n_instruction_columns as int),
        ) + claim_len(
            point_n_vars(hybrid.log_size as int, vm.n_instruction_columns as int),
        ) <= result.1@.len(),
        next_pow2(vm.input_start + result.1@.len()) <= usize::MAX,
{
    let cols = vm.n_instruction_columns as int;
    let inner_n_vars = point_n_vars(inner.log_size as int, cols);
    let self_n_vars = point_n_vars(hybrid.log_size as int, cols);
    let s = choose|s: HybridStep<P>|
        is_hybrid_step(
            vm,
            verify,
            begin,
            sumcheck,
            hybrid,
            inner,
            self_proofs,
            inner_proofs,
            s,
        ) && #[trigger] hybrid_recursion_proved(h, vm, prove, hybrid, inner, s, rate, result);
    assert(hybrid_fits(h, vm, hybrid, inner, s));
    let hashes = leading_digests(self_proofs) + leading_digests(inner_proofs);
    lemma_settled_len(
        begin,
        sumcheck,
        inner,
        cols,
        hybrid_inner_claims(self_proofs, s.inner_verified, inner_n_vars, inner.zero_eval@),
        s.inner_claim,
        s.inner_transcript,
    );
    lemma_settled_len(
        begin,
        sumcheck,
        hybrid,
        cols,
        paired_claims(
            self_proofs,
            s.self_verified,
            8 + claim_len_padded(inner_n_vars),
            self_n_vars,
        ),
        s.self_claim,
        s.self_transcript,
    );
    lemma_chain_digest(h, hashes);
    lemma_bound_hash_digest(h, vm, inner.hash);
    lemma_bound_hash_digest(h, vm, hybrid.hash);
    lemma_padded_len(inner_n_vars);
    lemma_padded_len(self_n_vars);
    let x = fseq(result.1@);
    let d = default_hybrid_input(h, vm, hashes, inner, hybrid);
    let start = 8 + claim_len_padded(inner_n_vars);
    let end = start + claim_len_padded(self_n_vars);
    assert(x.len() == result.1@.len());
    assert(x.take(8) =~= d.take(8));
    assert(x.skip(x.len() - 16) =~= d.skip(d.len() - 16));
    if self_proofs.len() == 0 {
        assert(x.subrange(start, end) =~= padded(s.self_claim, self_n_vars));
        assert(d.subrange(start, end) =~= padded(s.self_claim, self_n_vars));
    }
}

/// Padding does not shorten a claim.
proof fn lemma_padded_len(n_vars: int)
    requires
        n_vars >= 0,
    ensures
        claim_len(n_vars) <= claim_len_padded(n_vars),
{
}

} // verus!
