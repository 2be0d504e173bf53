//! What a recursive circuit is handed: how many children of each kind, what it needs of each
//! of them, and the transcripts of the reductions.

use crate::claims::Reduction;
use crate::claims_laws::{lemma_child_in_private_input, lemma_paths_of_child};
use crate::ext::{coords, fseq};
use crate::field::{F, P as MODULUS};
use crate::layout_laws::lemma_part_addresses;
use crate::numeric::next_pow2;
use crate::recursion::{
    all_paths, hybrid_recursion_proved, recursion_private_input, source_blocks, step_parts,
    unified_parts, unified_recursion_proved, vec_views, HybridStep,
};
use crate::slices::flat;
use crate::types::Digest;
use crate::vm::{Bytecode, Verified, VmParams, Witness};
use vstd::prelude::*;

verus! {

/// The address that the private input holds for part `i`, as a position in it. The public part
/// of the memory, for a public input of the given length, goes before it.
pub open spec fn part_at(vm: VmParams, input_len: int, x: Seq<int>, i: int) -> int {
    x[2 + i] - next_pow2(vm.input_start + input_len)
}

/// What a private input holds of a child at a position: the value of the claim that its
/// verification leaves open, its public input in its public memory, and its transcript.
pub open spec fn holds_child<P>(
    vm: VmParams,
    x: Seq<int>,
    at: int,
    child: (Vec<F>, P),
    v: Verified,
) -> bool {
    let memory = next_pow2(vm.input_start + child.0@.len());
    let t = v.raw_proof.transcript@;
    &&& 0 <= at
    &&& at + 5 + memory + t.len() <= x.len()
    &&& x.subrange(at, at + 5) == coords(v.bytecode_evaluation.value@)
    &&& x.subrange(at + 5 + vm.input_start, at + 5 + vm.input_start + child.0@.len()) == fseq(
        child.0@,
    )
    &&& x.subrange(at + 5 + memory, at + 5 + memory + t.len()) == fseq(t)
}

/// The authentication paths of verifications, in order: for each opening its leaf, and then
/// the digests of its path.
pub open spec fn holds_paths(paths: Seq<Seq<int>>, verified: Seq<Verified>, from: int) -> bool {
    forall|i: int, k: int|
        0 <= i < verified.len() && 0 <= k
            < verified[i].raw_proof.merkle_openings@.len() ==> holds_path(
            paths,
            from + #[trigger] path_index(verified, i, k),
            verified,
            i,
            k,
        )
}

/// The number of paths before those of opening `k` of verification `i`: two for each opening.
pub open spec fn path_index(verified: Seq<Verified>, i: int, k: int) -> int
    decreases i,
{
    if i <= 0 {
        2 * k
    } else {
        path_index(verified, i - 1, verified[i - 1].raw_proof.merkle_openings@.len() as int) + 2 * k
    }
}

/// The leaf and the path of an opening stand at a position.
pub open spec fn holds_path(
    paths: Seq<Seq<int>>,
    at: int,
    verified: Seq<Verified>,
    i: int,
    k: int,
) -> bool {
    let o = verified[i].raw_proof.merkle_openings@[k];
    &&& 0 <= at
    &&& at + 1 < paths.len()
    &&& paths[at] == fseq(o.leaf_data@)
    &&& paths[at + 1].len() == 8 * o.path@.len()
    &&& forall|j: int, t: int|
        0 <= j < o.path@.len() && 0 <= t < 8 ==> paths[at + 1][j * 8 + t] == (
        #[trigger] o.path@[j]@[t])@
}

/// The paths before those of a child.
proof fn lemma_path_index(verified: Seq<Verified>, i: int)
    requires
        0 <= i <= verified.len(),
    ensures
        path_index(verified, i, 0) == all_paths(verified.take(i)).len(),
    decreases i,
{
    if i > 0 {
        lemma_path_index(verified, i - 1);
        let n = verified[i - 1].raw_proof.merkle_openings@.len() as int;
        let a = verified.take(i - 1);
        let b = verified.take(i);
        let u = Seq::new(
            b.len(),
            |q: int| crate::recursion::opening_paths(b[q].raw_proof.merkle_openings@),
        );
        let w = Seq::new(
            a.len(),
            |q: int| crate::recursion::opening_paths(a[q].raw_proof.merkle_openings@),
        );
        assert(u.drop_last() =~= w);
        assert(path_index(verified, i - 1, n) == path_index(verified, i - 1, 0) + 2 * n);
    } else {
        assert(verified.take(0) =~= Seq::empty());
    }
}

/// All paths, from a position on.
proof fn lemma_holds_paths(front: Seq<Seq<int>>, verified: Seq<Verified>, back: Seq<Seq<int>>)
    ensures
        holds_paths(front + all_paths(verified) + back, verified, front.len() as int),
        all_paths(verified).len() == path_index(verified, verified.len() as int, 0),
{
    let paths = front + all_paths(verified) + back;
    let from = front.len() as int;
    lemma_path_index(verified, verified.len() as int);
    assert(verified.take(verified.len() as int) =~= verified);
    assert forall|i: int, k: int|
        0 <= i < verified.len() && 0 <= k
            < verified[i].raw_proof.merkle_openings@.len() implies holds_path(
        paths,
        from + #[trigger] path_index(verified, i, k),
        verified,
        i,
        k,
    ) by {
        lemma_path_index(verified, i);
        lemma_paths_of_child(verified, i, k, 0, 0);
        let at = all_paths(verified.take(i)).len() as int + 2 * k;
        assert(path_index(verified, i, k) == at);
        let o = verified[i].raw_proof.merkle_openings@[k];
        assert(paths[from + at] == all_paths(verified)[at]);
        assert(paths[from + (at + 1)] == all_paths(verified)[at + 1]);
        assert forall|j: int, t: int| 0 <= j < o.path@.len() && 0 <= t < 8 implies paths[from + at
            + 1][j * 8 + t] == (#[trigger] o.path@[j]@[t])@ by {
            lemma_paths_of_child(verified, i, k, j, t);
        }
    }
}

/// What the unified circuit is handed when it verifies proofs: their number and no raw batch,
/// each child behind its address, the transcript of the reduction behind the next, and the
/// authentication paths of the children in order.
pub open spec fn unified_witness<P>(
    vm: VmParams,
    proofs: Seq<(Vec<F>, P)>,
    verified: Seq<Verified>,
    transcript: Seq<int>,
    input_len: int,
    w: Witness,
) -> bool {
    let x = fseq(w.private_input@);
    let n = proofs.len() as int;
    &&& x[0] == n
    &&& x[1] == 0
    &&& forall|i: int|
        0 <= i < n ==> holds_child(
            vm,
            x,
            part_at(vm, input_len, x, i),
            #[trigger] proofs[i],
            verified[i],
        )
    &&& forall|a: int|
        0 <= a < transcript.len() ==> x[part_at(vm, input_len, x, n) + a] == #[trigger] transcript[a]
    &&& holds_paths(vec_views(w.merkle_paths@), verified, 0)
    &&& w.merkle_paths@.len() == path_index(verified, n, 0)
}

/// The unified recursion hands the circuit what it needs of every child.
pub proof fn lemma_unified_witness<
    H: Fn(Digest, Digest) -> Digest,
    B,
    P,
    Z: Fn(&Bytecode<B>, &Vec<F>, &Witness, usize) -> P,
>(
    h: H,
    vm: VmParams,
    prove: Z,
    bytecode: Bytecode<B>,
    proofs: Seq<(Vec<F>, P)>,
    verified: Seq<Verified>,
    reduction: Reduction,
    rate: usize,
    result: (P, Vec<F>),
) -> (w: Witness)
    requires
        verified.len() == proofs.len(),
        next_pow2(vm.input_start + result.1@.len()) + 3 + proofs.len() + flat(
            unified_parts(vm, proofs, verified, fseq(reduction.transcript@)),
        ).len() < MODULUS,
        unified_recursion_proved(
            h,
            vm,
            prove,
            bytecode,
            proofs,
            verified,
            reduction,
            rate,
            result,
        ),
    ensures
        call_ensures(prove, (&bytecode, &result.1, &w, rate), result.0),
        unified_witness(
            vm,
            proofs,
            verified,
            fseq(reduction.transcript@),
            result.1@.len() as int,
            w,
        ),
{
    let t = fseq(reduction.transcript@);
    let parts = unified_parts(vm, proofs, verified, t);
    let n = proofs.len() as int;
    let base = next_pow2(vm.input_start + result.1@.len());
    vstd::arithmetic::power2::lemma_pow2_pos(
        crate::numeric::log2_ceil(vm.input_start + result.1@.len()),
    );
    let input = recursion_private_input(n, 0, parts, base);
    let w = choose|w: Witness|
        fseq(w.private_input@) == input && vec_views(w.merkle_paths@) == all_paths(verified)
            && #[trigger] call_ensures(prove, (&bytecode, &result.1, &w, rate), result.0);
    assert(parts.subrange(0, n) =~= source_blocks(vm, proofs, verified));
    assert forall|i: int| 0 <= i < n implies holds_child(
        vm,
        input,
        part_at(vm, result.1@.len() as int, input, i),
        #[trigger] proofs[i],
        verified[i],
    ) by {
        lemma_child_in_private_input(vm, n, 0, parts, base, proofs, verified, 0, i);
    }
    assert(parts[n] == t);
    assert forall|a: int| 0 <= a < t.len() implies input[part_at(
        vm,
        result.1@.len() as int,
        input,
        n,
    ) + a] == #[trigger] t[a] by {
        lemma_part_addresses(n, 0, parts, base, n, a);
    }
    vstd::arithmetic::div_mod::lemma_small_mod(n as nat, MODULUS as nat);
    let none = Seq::<Seq<int>>::empty();
    lemma_holds_paths(none, verified, none);
    assert(none + all_paths(verified) + none =~= all_paths(verified));
    assert(vec_views(w.merkle_paths@).len() == w.merkle_paths@.len());
    w
}

/// What the hybrid circuit is handed: the numbers of proofs of itself and of the inner
/// circuit, each child behind its address, those of the hybrid circuit first, the transcripts
/// of the reductions for the inner program and for the circuit itself behind the next two
/// addresses, and the authentication paths of the children in order.
pub open spec fn hybrid_witness<P>(
    vm: VmParams,
    step: HybridStep<P>,
    input_len: int,
    w: Witness,
) -> bool {
    let x = fseq(w.private_input@);
    let (n, m) = (step.self_proofs.len() as int, step.inner_proofs.len() as int);
    &&& x[0] == n
    &&& x[1] == m
    &&& forall|i: int|
        0 <= i < n ==> holds_child(
            vm,
            x,
            part_at(vm, input_len, x, i),
            #[trigger] step.self_proofs[i],
            step.self_verified[i],
        )
    &&& forall|i: int|
        0 <= i < m ==> holds_child(
            vm,
            x,
            part_at(vm, input_len, x, n + i),
            #[trigger] step.inner_proofs[i],
            step.inner_verified[i],
        )
    &&& forall|a: int|
        0 <= a < step.inner_transcript.len() ==> x[part_at(vm, input_len, x, n + m) + a]
            == #[trigger] step.inner_transcript[a]
    &&& forall|a: int|
        0 <= a < step.self_transcript.len() ==> x[part_at(vm, input_len, x, n + m + 1) + a]
            == #[trigger] step.self_transcript[a]
    &&& holds_paths(vec_views(w.merkle_paths@), step.self_verified, 0)
    &&& holds_paths(
        vec_views(w.merkle_paths@),
        step.inner_verified,
        path_index(step.self_verified, n, 0),
    )
    &&& w.merkle_paths@.len() == path_index(step.self_verified, n, 0) + path_index(
        step.inner_verified,
        m,
        0,
    )
}

/// The hybrid recursion hands the circuit what it needs of every child.
pub proof fn lemma_hybrid_witness<
    H: Fn(Digest, Digest) -> Digest,
    B,
    P,
    Z: Fn(&Bytecode<B>, &Vec<F>, &Witness, usize) -> P,
>(
    h: H,
    vm: VmParams,
    prove: Z,
    hybrid: Bytecode<B>,
    inner: Bytecode<B>,
    step: HybridStep<P>,
    rate: usize,
    result: (P, Vec<F>),
) -> (w: Witness)
    requires
        step.self_verified.len() == step.self_proofs.len(),
        step.inner_verified.len() == step.inner_proofs.len(),
        next_pow2(vm.input_start + result.1@.len()) + 4 + step.self_proofs.len()
            + step.inner_proofs.len() + flat(step_parts(vm, step)).len() < MODULUS,
        hybrid_recursion_proved(h, vm, prove, hybrid, inner, step, rate, result),
    ensures
        call_ensures(prove, (&hybrid, &result.1, &w, rate), result.0),
        hybrid_witness(vm, step, result.1@.len() as int, w),
{
    let parts = step_parts(vm, step);
    let (n, m) = (step.self_proofs.len() as int, step.inner_proofs.len() as int);
    let len = result.1@.len() as int;
    let base = next_pow2(vm.input_start + len);
    vstd::arithmetic::power2::lemma_pow2_pos(crate::numeric::log2_ceil(vm.input_start + len));
    let input = recursion_private_input(n, m, parts, base);
    let (a, b) = (all_paths(step.self_verified), all_paths(step.inner_verified));
    let w = choose|w: Witness|
        fseq(w.private_input@) == input && vec_views(w.merkle_paths@) == a + b
            && #[trigger] call_ensures(prove, (&hybrid, &result.1, &w, rate), result.0);
    assert(parts.subrange(0, n) =~= source_blocks(vm, step.self_proofs, step.self_verified));
    assert(parts.subrange(n, n + m) =~= source_blocks(
        vm,
        step.inner_proofs,
        step.inner_verified,
    ));
    assert forall|i: int| 0 <= i < n implies holds_child(
        vm,
        input,
        part_at(vm, len, input, i),
        #[trigger] step.self_proofs[i],
        step.self_verified[i],
    ) by {
        lemma_child_in_private_input(
            vm,
            n,
            m,
            parts,
            base,
            step.self_proofs,
            step.self_verified,
            0,
            i,
        );
    }
    assert forall|i: int| 0 <= i < m implies holds_child(
        vm,
        input,
        part_at(vm, len, input, n + i),
        #[trigger] step.inner_proofs[i],
        step.inner_verified[i],
    ) by {
        lemma_child_in_private_input(
            vm,
            n,
            m,
            parts,
            base,
            step.inner_proofs,
            step.inner_verified,
            n,
            i,
        );
    }
    assert(parts[n + m] == step.inner_transcript);
    assert(parts[n + m + 1] == step.self_transcript);
    assert forall|q: int| 0 <= q < step.inner_transcript.len() implies input[part_at(
        vm,
        len,
        input,
        n + m,
    ) + q] == #[trigger] step.inner_transcript[q] by {
        lemma_part_addresses(n, m, parts, base, n + m, q);
    }
    assert forall|q: int| 0 <= q < step.self_transcript.len() implies input[part_at(
        vm,
        len,
        input,
        n + m + 1,
    ) + q] == #[trigger] step.self_transcript[q] by {
        lemma_part_addresses(n, m, parts, base, n + m + 1, q);
    }
    vstd::arithmetic::div_mod::lemma_small_mod(n as nat, MODULUS as nat);
    vstd::arithmetic::div_mod::lemma_small_mod(m as nat, MODULUS as nat);
    let none = Seq::<Seq<int>>::empty();
    lemma_holds_paths(none, step.self_verified, b);
    lemma_holds_paths(a, step.inner_verified, none);
    assert(none + a + b =~= a + b);
    assert(a + b + none =~= a + b);
    assert(vec_views(w.merkle_paths@).len() == w.merkle_paths@.len());
    w
}

} // verus!
