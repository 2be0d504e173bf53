//! What a recursive proof says of its children: every claim that they leave open is settled
//! by the reduced claim, and everything that the circuit reads of them is in its input.

use crate::claims::{
    claim_views, claimed_sum, flat_claim, is_reduction, parsed_claim, powers_of, reduces,
    zero_claim, Claim, Reduction,
};
use crate::ext::{
    coords, eadd, embed, emul, epow, eseq, ewf, fseq, lemma_eadd_assoc, lemma_eadd_comm,
    lemma_emul_comm, lemma_emul_dist, lemma_ewf_ops, Ext, EF,
};
use crate::field::{F, P};
use crate::hash::{is_compression, lemma_compress};
use crate::inputs::{lemma_chain_digest, public_memory};
use crate::layout_laws::{
    lemma_default_is_zero_claim, lemma_hybrid_layout, lemma_part_addresses, lemma_public_memory,
    lemma_unified_layout,
};
use crate::numeric::next_pow2;
use crate::recursion::{
    all_paths, hybrid_inner_claims, hybrid_ready, hybrid_recursion_proved, hybrid_recursion_result,
    is_hybrid_step, is_settled, leading_digests, opened_claims, opening_paths, paired_claims,
    propagated_claims, recursion_private_input, recursion_ready, settles, source_blocks,
    unified_recursion_proved, unified_recursion_result, verified_by, HybridStep,
};
use crate::slices::{flat, lemma_flat_add, lemma_flat_take};
use crate::sums::{esum, lemma_esum_eq};
use crate::types::{digest_view, Digest};
use crate::vm::{
    bound_hash, claim_len_padded, point_n_vars, Bytecode, Evaluation, Verified, VmParams, Witness,
};
use vstd::prelude::*;

verus! {

// The claims of a step.

/// For each child of the unified recursion the claims that are reduced hold the one that its
/// public input carries and the one that its verification leaves open, and no others.
pub proof fn lemma_paired_claims_complete<P>(
    proofs: Seq<(Vec<F>, P)>,
    verified: Seq<Verified>,
    offset: int,
    n_vars: int,
    i: int,
)
    requires
        proofs.len() == verified.len(),
        0 <= i < proofs.len(),
    ensures
        ({
            let claims = paired_claims(proofs, verified, offset, n_vars);
            &&& claims.len() == 2 * proofs.len()
            &&& claims[2 * i] == parsed_claim(fseq(proofs[i].0@), offset, n_vars)
            &&& claims[2 * i + 1] == verified[i].bytecode_evaluation@
        }),
{
    assert((2 * i) % 2 == 0 && (2 * i + 1) % 2 == 1);
    assert((2 * i) / 2 == i && (2 * i + 1) / 2 == i);
}

/// The claims on the inner program that the hybrid recursion reduces: first what each proof of
/// the hybrid circuit carries, then for each inner proof `i`, at `2 i` and `2 i + 1` behind
/// those, the claim on the zero point and the claim that its verification leaves open.
pub proof fn lemma_inner_claims_complete<P>(
    self_proofs: Seq<(Vec<F>, P)>,
    verified: Seq<Verified>,
    n_vars: int,
    zero_eval: int,
    i: int,
)
    requires
        n_vars >= 0,
    ensures
        ({
            let claims = hybrid_inner_claims(self_proofs, verified, n_vars, zero_eval);
            let n_self = self_proofs.len() as int;
            &&& claims.len() == n_self + 2 * verified.len()
            &&& 0 <= i < n_self ==> claims[i] == parsed_claim(fseq(self_proofs[i].0@), 8, n_vars)
            &&& 0 <= i < verified.len() ==> {
                &&& claims[n_self + 2 * i].point == Seq::new(n_vars as nat, |k: int| embed(0))
                &&& claims[n_self + 2 * i].value == embed(zero_eval)
                &&& claims[n_self + 2 * i + 1] == verified[i].bytecode_evaluation@
            }
        }),
{
    let (carried, opened) = (
        propagated_claims(self_proofs, 8, n_vars),
        opened_claims(verified, n_vars, zero_eval),
    );
    let claims = hybrid_inner_claims(self_proofs, verified, n_vars, zero_eval);
    let n_self = self_proofs.len() as int;
    assert(claims == carried + opened);
    if 0 <= i < n_self {
        assert(claims[i] == carried[i]);
    }
    if 0 <= i < verified.len() {
        assert((2 * i) % 2 == 0 && (2 * i + 1) % 2 == 1);
        assert((2 * i) / 2 == i && (2 * i + 1) / 2 == i);
        assert(claims[n_self + 2 * i] == opened[2 * i]);
        assert(claims[n_self + 2 * i + 1] == opened[2 * i + 1]);
        assert(opened[2 * i] == zero_claim(n_vars, zero_eval));
        assert(opened[2 * i + 1] == verified[i].bytecode_evaluation@);
    }
}

/// The reduction is sound for claims of a kind: where the reduced claim holds, so does every
/// claim that was reduced to it.
pub open spec fn sound_reduction<
    B,
    S,
    G: Fn(&Vec<Evaluation>) -> (S, EF),
    R: Fn(S, &Bytecode<B>, &Vec<Evaluation>, &Vec<EF>, EF) -> Reduction,
>(begin: G, sumcheck: R, bytecode: Bytecode<B>, holds: spec_fn(Claim) -> bool) -> bool {
    forall|claims: Seq<Claim>, r: Reduction, i: int|
        #[trigger] is_reduction(begin, sumcheck, bytecode, claims, r) && holds(
            Claim { point: eseq(r.point@), value: r.value@ },
        ) && 0 <= i < claims.len() ==> holds(#[trigger] claims[i])
}

/// Verification of the child succeeds and leaves open a claim that holds.
pub open spec fn child_settled<B, P, V: Fn(&Bytecode<B>, &Vec<F>, &P) -> Result<Verified, String>>(
    verify: V,
    bytecode: Bytecode<B>,
    child: (Vec<F>, P),
    holds: spec_fn(Claim) -> bool,
) -> bool {
    exists|v: Verified| #[trigger]
        call_ensures(verify, (&bytecode, &child.0, &child.1), Ok::<Verified, String>(v)) && holds(
            v.bytecode_evaluation@,
        )
}

/// The reduced claim in its flat form, and what it settles.
proof fn lemma_settled_claim<
    B,
    S,
    G: Fn(&Vec<Evaluation>) -> (S, EF),
    R: Fn(S, &Bytecode<B>, &Vec<Evaluation>, &Vec<EF>, EF) -> Reduction,
>(
    begin: G,
    sumcheck: R,
    bytecode: Bytecode<B>,
    columns: int,
    claims: Seq<Claim>,
    claim: Seq<int>,
    transcript: Seq<int>,
    holds: spec_fn(Claim) -> bool,
) -> (c: Claim)
    requires
        point_n_vars(bytecode.log_size as int, columns) >= 0,
        settles(begin, sumcheck, bytecode, claims, columns),
        is_settled(
            begin,
            sumcheck,
            bytecode,
            point_n_vars(bytecode.log_size as int, columns),
            claims,
            claim,
            transcript,
        ),
        sound_reduction(begin, sumcheck, bytecode, holds),
    ensures
        claim == flat_claim(c.point, c.value),
        c.point.len() == point_n_vars(bytecode.log_size as int, columns),
        holds(c) ==> forall|i: int| 0 <= i < claims.len() ==> holds(#[trigger] claims[i]),
{
    let n_vars = point_n_vars(bytecode.log_size as int, columns);
    if claims.len() == 0 {
        lemma_default_is_zero_claim(n_vars, bytecode.zero_eval@);
        zero_claim(n_vars, bytecode.zero_eval@)
    } else {
        let r = choose|r: Reduction|
            claim == flat_claim(eseq(r.point@), r.value@) && transcript == fseq(r.transcript@)
                && #[trigger] is_reduction(begin, sumcheck, bytecode, claims, r);
        assert(eseq(r.point@).len() == r.point@.len());
        Claim { point: eseq(r.point@), value: r.value@ }
    }
}

/// A recursive proof of the hybrid circuit covers all its children: where the two claims that
/// its public input carries hold, and the reduction is sound, every child verifies and leaves
/// open a claim that holds, and the claims that the proofs of the hybrid circuit carry hold.
pub proof fn lemma_hybrid_recursion_covers_children<
    H: Fn(Digest, Digest) -> Digest,
    B,
    P,
    S,
    V: Fn(&Bytecode<B>, &Vec<F>, &P) -> Result<Verified, String>,
    G: Fn(&Vec<Evaluation>) -> (S, EF),
    R: Fn(S, &Bytecode<B>, &Vec<Evaluation>, &Vec<EF>, EF) -> Reduction,
    Z: Fn(&Bytecode<B>, &Vec<F>, &Witness, usize) -> P,
>(
    h: H,
    vm: VmParams,
    verify: V,
    begin: G,
    sumcheck: R,
    prove: Z,
    hybrid: Bytecode<B>,
    inner: Bytecode<B>,
    rate: usize,
    self_proofs: Seq<(Vec<F>, P)>,
    inner_proofs: Seq<(Vec<F>, P)>,
    result: (P, Vec<F>),
    inner_holds: spec_fn(Claim) -> bool,
    self_holds: spec_fn(Claim) -> bool,
)
    requires
        is_compression(h),
        hybrid_ready(
            h,
            vm,
            verify,
            begin,
            sumcheck,
            prove,
            hybrid,
            inner,
            rate,
            self_proofs,
            inner_proofs,
        ),
        hybrid_recursion_result(
            h,
            vm,
            verify,
            begin,
            sumcheck,
            prove,
            hybrid,
            inner,
            rate,
            self_proofs,
            inner_proofs,
            result,
        ),
        sound_reduction(begin, sumcheck, inner, inner_holds),
        sound_reduction(begin, sumcheck, hybrid, self_holds),
        inner_holds(
            parsed_claim(
                fseq(result.1@),
                8,
                point_n_vars(inner.log_size as int, vm.n_instruction_columns as int),
            ),
        ),
        self_holds(
            parsed_claim(
                fseq(result.1@),
                8 + claim_len_padded(
                    point_n_vars(inner.log_size as int, vm.n_instruction_columns as int),
                ),
                point_n_vars(hybrid.log_size as int, vm.n_instruction_columns as int),
            ),
        ),
    ensures
        forall|i: int|
            0 <= i < inner_proofs.len() ==> child_settled(
                verify,
                inner,
                #[trigger] inner_proofs[i],
                inner_holds,
            ),
        forall|i: int|
            0 <= i < self_proofs.len() ==> {
                let cols = vm.n_instruction_columns as int;
                let (n, m) = (
                    point_n_vars(inner.log_size as int, cols),
                    point_n_vars(hybrid.log_size as int, cols),
                );
                let carried = fseq((#[trigger] self_proofs[i]).0@);
                &&& child_settled(verify, hybrid, self_proofs[i], self_holds)
                &&& inner_holds(parsed_claim(carried, 8, n))
                &&& self_holds(parsed_claim(carried, 8 + claim_len_padded(n), m))
            },
{
    let cols = vm.n_instruction_columns as int;
    let n = point_n_vars(inner.log_size as int, cols);
    let m = point_n_vars(hybrid.log_size as int, cols);
    let s = choose|s: HybridStep<P>|
        is_hybrid_step(
            vm,
            verify,
            begin,
            sumcheck,
            hybrid,
            inner,
            self_proofs,
            inner_proofs,
            s,
        ) && #[trigger] hybrid_recursion_proved(h, vm, prove, hybrid, inner, s, rate, result);
    let inner_claims = hybrid_inner_claims(self_proofs, s.inner_verified, n, inner.zero_eval@);
    let second = 8 + claim_len_padded(n);
    let self_claims = paired_claims(self_proofs, s.self_verified, second, m);
    assert(verified_by(verify, inner, inner_proofs, s.inner_verified));
    assert(verified_by(verify, hybrid, self_proofs, s.self_verified));
    let a = lemma_settled_claim(
        begin,
        sumcheck,
        inner,
        cols,
        inner_claims,
        s.inner_claim,
        s.inner_transcript,
        inner_holds,
    );
    let b = lemma_settled_claim(
        begin,
        sumcheck,
        hybrid,
        cols,
        self_claims,
        s.self_claim,
        s.self_transcript,
        self_holds,
    );
    let hashes = leading_digests(self_proofs) + leading_digests(inner_proofs);
    lemma_chain_digest(h, hashes);
    lemma_compress(h, digest_view(inner.hash), digest_view(vm.domain_sep));
    lemma_compress(h, digest_view(hybrid.hash), digest_view(vm.domain_sep));
    lemma_hybrid_layout(
        crate::inputs::chain(h, hashes),
        a.point,
        a.value,
        b.point,
        b.value,
        bound_hash(h, vm, inner.hash),
        bound_hash(h, vm, hybrid.hash),
    );
    let n_self = self_proofs.len() as int;
    assert forall|i: int| 0 <= i < inner_proofs.len() implies child_settled(
        verify,
        inner,
        #[trigger] inner_proofs[i],
        inner_holds,
    ) by {
        let v = s.inner_verified[i];
        lemma_inner_claims_complete(self_proofs, s.inner_verified, n, inner.zero_eval@, i);
        assert(inner_claims[n_self + 2 * i + 1] == v.bytecode_evaluation@);
        let c = inner_proofs[i];
        assert(call_ensures(verify, (&inner, &c.0, &c.1), Ok::<Verified, String>(v)));
    }
    assert forall|i: int| 0 <= i < self_proofs.len() implies {
        let carried = fseq((#[trigger] self_proofs[i]).0@);
        &&& child_settled(verify, hybrid, self_proofs[i], self_holds)
        &&& inner_holds(parsed_claim(carried, 8, n))
        &&& self_holds(parsed_claim(carried, second, m))
    } by {
        lemma_paired_claims_complete(self_proofs, s.self_verified, second, m, i);
        lemma_inner_claims_complete(self_proofs, s.inner_verified, n, inner.zero_eval@, i);
        let v = s.self_verified[i];
        let c = self_proofs[i];
        assert(self_holds(self_claims[2 * i]));
        assert(self_holds(self_claims[2 * i + 1]));
        assert(inner_holds(inner_claims[i]));
        assert(call_ensures(verify, (&hybrid, &c.0, &c.1), Ok::<Verified, String>(v)));
    }
}

/// A recursive proof of the unified circuit covers all its children: where the claim that its
/// public input carries holds, and the reduction is sound, every child verifies and leaves
/// open a claim that holds, and the claim that it carries holds.
pub proof fn lemma_unified_recursion_covers_children<
    H: Fn(Digest, Digest) -> Digest,
    B,
    P,
    S,
    V: Fn(&Bytecode<B>, &Vec<F>, &P) -> Result<Verified, String>,
    G: Fn(&Vec<Evaluation>) -> (S, EF),
    R: Fn(S, &Bytecode<B>, &Vec<Evaluation>, &Vec<EF>, EF) -> Reduction,
    Z: Fn(&Bytecode<B>, &Vec<F>, &Witness, usize) -> P,
>(
    h: H,
    vm: VmParams,
    verify: V,
    begin: G,
    sumcheck: R,
    prove: Z,
    bytecode: Bytecode<B>,
    rate: usize,
    proofs: Seq<(Vec<F>, P)>,
    result: (P, Vec<F>),
    holds: spec_fn(Claim) -> bool,
)
    requires
        is_compression(h),
        recursion_ready(h, vm, verify, begin, sumcheck, prove, bytecode, rate, proofs),
        unified_recursion_result(
            h,
            vm,
            verify,
            begin,
            sumcheck,
            prove,
            bytecode,
            rate,
            proofs,
            result,
        ),
        sound_reduction(begin, sumcheck, bytecode, holds),
        holds(
            parsed_claim(
                fseq(result.1@),
                8,
                point_n_vars(bytecode.log_size as int, vm.n_instruction_columns as int),
            ),
        ),
    ensures
        forall|i: int|
            0 <= i < proofs.len() ==> {
                &&& child_settled(verify, bytecode, #[trigger] proofs[i], holds)
                &&& holds(
                    parsed_claim(
                        fseq(proofs[i].0@),
                        8,
                        point_n_vars(bytecode.log_size as int, vm.n_instruction_columns as int),
                    ),
                )
            },
{
    let cols = vm.n_instruction_columns as int;
    let n = point_n_vars(bytecode.log_size as int, cols);
    let (verified, reduction) = choose|verified: Seq<Verified>, reduction: Reduction|
        verified_by(verify, bytecode, proofs, verified) && is_reduction(
            begin,
            sumcheck,
            bytecode,
            paired_claims(proofs, verified, 8, n),
            reduction,
        ) && #[trigger] unified_recursion_proved(
            h,
            vm,
            prove,
            bytecode,
            proofs,
            verified,
            reduction,
            rate,
            result,
        );
    let claims = paired_claims(proofs, verified, 8, n);
    assert(verified_by(verify, bytecode, proofs, verified));
    assert(reduces(begin, sumcheck, bytecode, claims, cols));
    assert(eseq(reduction.point@).len() == n);
    lemma_chain_digest(h, leading_digests(proofs));
    lemma_compress(h, digest_view(bytecode.hash), digest_view(vm.domain_sep));
    lemma_unified_layout(
        crate::inputs::chain(h, leading_digests(proofs)),
        eseq(reduction.point@),
        reduction.value@,
        bound_hash(h, vm, bytecode.hash),
    );
    assert forall|i: int| 0 <= i < proofs.len() implies {
        &&& child_settled(verify, bytecode, #[trigger] proofs[i], holds)
        &&& holds(parsed_claim(fseq(proofs[i].0@), 8, n))
    } by {
        lemma_paired_claims_complete(proofs, verified, 8, n, i);
        let v = verified[i];
        let c = proofs[i];
        assert(holds(claims[2 * i]));
        assert(holds(claims[2 * i + 1]));
        assert(call_ensures(verify, (&bytecode, &c.0, &c.1), Ok::<Verified, String>(v)));
    }
}

/// Every claim counts with its own power in the claimed sum: another value for claim `i`
/// changes the sum by `alpha` to the `i` times the difference.
pub proof fn lemma_claimed_sum_weights(claims: Seq<Claim>, i: int, c: Claim, alpha: Ext, d: Ext)
    requires
        0 <= i < claims.len(),
        ewf(d),
        ewf(alpha),
        ewf(claims[i].value),
        c.value == eadd(claims[i].value, d),
    ensures
        claimed_sum(claims.update(i, c), alpha) == eadd(
            claimed_sum(claims, alpha),
            emul(epow(alpha, i as nat), d),
        ),
        claimed_sum(Seq::empty(), alpha) == embed(0),
{
    let n = claims.len();
    let f = |k: int| emul(claims[k].value, epow(alpha, k as nat));
    let g = |k: int| emul(claims.update(i, c)[k].value, epow(alpha, k as nat));
    lemma_changed_term(f, g, i, emul(epow(alpha, i as nat), d), n, alpha, claims[i].value, d);
}

/// What a reduction is made of. The outside protocol starts from the claims as they are and
/// draws one element; the sumcheck gets the claims again, one weight for each of them, and
/// the sum of the values with these weights. The first weight is one, and each other is the
/// one before times the element.
pub proof fn lemma_reduction_is_of_the_claims<
    B,
    S,
    G: Fn(&Vec<Evaluation>) -> (S, EF),
    R: Fn(S, &Bytecode<B>, &Vec<Evaluation>, &Vec<EF>, EF) -> Reduction,
>(begin: G, sumcheck: R, bytecode: Bytecode<B>, claims: Seq<Claim>, r: Reduction) -> (q: (
    Vec<Evaluation>,
    S,
    EF,
    Vec<EF>,
    EF,
))
    requires
        is_reduction(begin, sumcheck, bytecode, claims, r),
    ensures
        ({
            let (given, state, drawn, weights, total) = q;
            &&& call_ensures(begin, (&given,), (state, drawn))
            &&& call_ensures(sumcheck, (state, &bytecode, &given, &weights, total), r)
            &&& given@.len() == claims.len()
            &&& forall|i: int| 0 <= i < claims.len() ==> (#[trigger] given@[i])@ == claims[i]
            &&& weights@.len() == claims.len()
            &&& claims.len() > 0 ==> weights@[0]@ == embed(1)
            &&& forall|i: int|
                0 < i < claims.len() ==> (#[trigger] weights@[i])@ == emul(
                    drawn@,
                    weights@[i - 1]@,
                )
            &&& total@ == esum(
                |i: int| emul(given@[i]@.value, weights@[i]@),
                claims.len(),
            )
        }),
{
    let (c, s, alpha, p, e) = choose|c: Vec<Evaluation>, s: S, alpha: EF, p: Vec<EF>, e: EF|
        claim_views(c@) == claims && #[trigger] call_ensures(begin, (&c,), (s, alpha)) && eseq(p@)
            == powers_of(alpha@, claims.len()) && e@ == claimed_sum(claims, alpha@)
            && #[trigger] call_ensures(sumcheck, (s, &bytecode, &c, &p, e), r);
    assert(claim_views(c@).len() == c@.len());
    assert(eseq(p@).len() == p@.len());
    assert forall|i: int| 0 <= i < claims.len() implies (#[trigger] c@[i])@ == claims[i] by {
        assert(claim_views(c@)[i] == c@[i]@);
    }
    assert forall|i: int| 0 <= i < claims.len() implies (#[trigger] p@[i])@ == epow(
        alpha@,
        i as nat,
    ) by {
        assert(eseq(p@)[i] == p@[i]@);
    }
    assert forall|i: int| 0 < i < claims.len() implies (#[trigger] p@[i])@ == emul(
        alpha@,
        p@[i - 1]@,
    ) by {
        assert(p@[i - 1]@ == epow(alpha@, (i - 1) as nat));
    }
    let f = |i: int| emul(claims[i].value, epow(alpha@, i as nat));
    let g = |i: int| emul(c@[i]@.value, p@[i]@);
    assert forall|i: int| 0 <= i < claims.len() implies #[trigger] f(i) == g(i) by {
        assert(c@[i]@ == claims[i]);
        assert(p@[i]@ == epow(alpha@, i as nat));
    }
    lemma_esum_eq(f, g, claims.len());
    (c, s, alpha, p, e)
}

/// One changed term of a sum.
proof fn lemma_changed_term(
    f: spec_fn(int) -> Ext,
    g: spec_fn(int) -> Ext,
    i: int,
    delta: Ext,
    n: nat,
    alpha: Ext,
    v: Ext,
    d: Ext,
)
    requires
        0 <= i < n,
        ewf(alpha),
        ewf(v),
        ewf(d),
        f(i) == emul(v, epow(alpha, i as nat)),
        g(i) == emul(eadd(v, d), epow(alpha, i as nat)),
        delta == emul(epow(alpha, i as nat), d),
        forall|k: int| 0 <= k < n && k != i ==> #[trigger] g(k) == f(k),
    ensures
        esum(g, n) == eadd(esum(f, n), delta),
    decreases n,
{
    let m = (n - 1) as nat;
    let p = epow(alpha, i as nat);
    crate::ext::lemma_epow_wf(alpha, i as nat);
    if i == n - 1 {
        lemma_esum_eq(g, f, m);
        lemma_ewf_ops(v, d, 0);
        lemma_emul_comm(eadd(v, d), p);
        lemma_emul_comm(v, p);
        lemma_emul_dist(p, v, d);
        lemma_eadd_assoc(esum(f, m), f(i), delta);
    } else {
        lemma_changed_term(f, g, i, delta, m, alpha, v, d);
        let (a, b) = (esum(f, m), f(n - 1));
        assert(g(n - 1) == b);
        lemma_eadd_assoc(a, delta, b);
        lemma_eadd_comm(delta, b);
        lemma_eadd_assoc(a, b, delta);
    }
}

// The private input of a step.

/// What a recursive circuit finds of child `i` at the address of its part: the value of the
/// claim that its verification leaves open, its public input at the machine's address in its
/// public memory, and behind that memory its transcript. The public part of the circuit's own
/// memory ends at `base`.
pub proof fn lemma_child_in_private_input<P>(
    vm: VmParams,
    n_first: int,
    n_second: int,
    parts: Seq<Seq<int>>,
    base: int,
    proofs: Seq<(Vec<F>, P)>,
    verified: Seq<Verified>,
    first: int,
    i: int,
)
    requires
        0 <= n_first < P,
        0 <= n_second < P,
        base >= 0,
        base + 2 + parts.len() + flat(parts).len() < P,
        proofs.len() == verified.len(),
        0 <= i < proofs.len(),
        0 <= first <= parts.len() - proofs.len(),
        parts.subrange(first, first + proofs.len()) == source_blocks(vm, proofs, verified),
    ensures
        ({
            let x = recursion_private_input(n_first, n_second, parts, base);
            let at = x[2 + first + i] - base;
            let memory = next_pow2(vm.input_start + proofs[i].0@.len());
            let t = verified[i].raw_proof.transcript@;
            &&& 0 <= at
            &&& at + 5 + memory + t.len() <= x.len()
            &&& x.subrange(at, at + 5) == coords(verified[i].bytecode_evaluation.value@)
            &&& x.subrange(
                at + 5 + vm.input_start,
                at + 5 + vm.input_start + proofs[i].0@.len(),
            ) == fseq(proofs[i].0@)
            &&& x.subrange(at + 5 + memory, at + 5 + memory + t.len()) == fseq(t)
        }),
{
    let x = recursion_private_input(n_first, n_second, parts, base);
    let input = fseq(proofs[i].0@);
    let block = parts[first + i];
    assert(block == source_blocks(vm, proofs, verified)[i]) by {
        assert(parts.subrange(first, first + proofs.len())[i] == block);
    }
    let value = coords(verified[i].bytecode_evaluation.value@);
    let memory = public_memory(vm.input_start as int, input);
    let t = fseq(verified[i].raw_proof.transcript@);
    lemma_public_memory(vm.input_start as int, input, 0);
    let end = vm.input_start + input.len();
    crate::numeric::lemma_log2_ceil(end as int);
    assert(memory.len() == next_pow2(end as int));
    assert(block == value + memory + t);
    let at = x[2 + (first + i)] - base;
    assert forall|a: int| 0 <= a < block.len() implies 0 <= at + a < x.len() && x[at + a]
        == #[trigger] block[a] by {
        lemma_part_addresses(n_first, n_second, parts, base, first + i, a);
    }
    lemma_part_addresses(n_first, n_second, parts, base, first + i, 0);
    lemma_part_addresses(n_first, n_second, parts, base, first + i, block.len() - 1);
    assert forall|a: int| 0 <= a < 5 implies x[at + a] == value[a] by {
        assert(block[a] == value[a]);
    }
    assert(x.subrange(at, at + 5) =~= value);
    let start = vm.input_start as int;
    let got = x.subrange(at + 5 + start, at + 5 + start + input.len());
    assert forall|a: int| 0 <= a < input.len() implies got[a] == input[a] by {
        assert(block[5 + start + a] == memory[start + a]);
        assert(memory.subrange(start, end as int)[a] == memory[start + a]);
    }
    assert(got =~= input);
    let k = memory.len() as int;
    let tail = x.subrange(at + 5 + k, at + 5 + k + t.len());
    assert forall|a: int| 0 <= a < t.len() implies tail[a] == t[a] by {
        assert(block[5 + k + a] == t[a]);
    }
    assert(tail =~= t);
}

/// Where the authentication paths of a child stand: behind those of the children before it,
/// for each opening its leaf and then the digests of its path one after the other.
pub proof fn lemma_paths_of_child(verified: Seq<Verified>, i: int, k: int, j: int, t: int)
    requires
        0 <= i < verified.len(),
        0 <= k < verified[i].raw_proof.merkle_openings@.len(),
    ensures
        ({
            let paths = all_paths(verified);
            let at = all_paths(verified.take(i)).len() + 2 * k;
            let o = verified[i].raw_proof.merkle_openings@[k];
            &&& at + 1 < paths.len()
            &&& paths[at] == fseq(o.leaf_data@)
            &&& paths[at + 1].len() == 8 * o.path@.len()
            &&& 0 <= j < o.path@.len() && 0 <= t < 8 ==> paths[at + 1][j * 8 + t]
                == o.path@[j]@[t]@
            &&& all_paths(verified.take(i + 1)).len() == all_paths(verified.take(i)).len() + 2
                * verified[i].raw_proof.merkle_openings@.len()
        }),
        all_paths(verified.take(0)).len() == 0,
        all_paths(verified.take(verified.len() as int)) == all_paths(verified),
{
    let lists = Seq::new(
        verified.len(),
        |q: int| opening_paths(verified[q].raw_proof.merkle_openings@),
    );
    let before = verified.take(i);
    let fronts = Seq::new(
        before.len(),
        |q: int| opening_paths(before[q].raw_proof.merkle_openings@),
    );
    let upto = verified.take(i + 1);
    let next = Seq::new(upto.len(), |q: int| opening_paths(upto[q].raw_proof.merkle_openings@));
    assert(fronts =~= lists.take(i));
    assert(next =~= lists.take(i + 1));
    lemma_flat_take(lists, i);
    lemma_flat_add(lists.take(i + 1), lists.skip(i + 1));
    assert(lists.take(i + 1) + lists.skip(i + 1) =~= lists);
    let own = lists[i];
    let at = flat(lists.take(i)).len() as int;
    assert((2 * k) % 2 == 0 && (2 * k + 1) % 2 == 1 && (2 * k) / 2 == k && (2 * k + 1) / 2 == k);
    assert(flat(lists)[at + 2 * k] == own[2 * k]);
    assert(flat(lists)[at + (2 * k + 1)] == own[2 * k + 1]);
    let o = verified[i].raw_proof.merkle_openings@[k];
    crate::layout_laws::lemma_flat_uniform(crate::commitment::digests(o.path@), 8, j, t);
    assert(verified.take(0) =~= Seq::empty());
    assert(verified.take(verified.len() as int) =~= verified);
}

} // verus!
