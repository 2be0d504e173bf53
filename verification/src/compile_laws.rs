//! Circuits that verify proofs of themselves are compiled for themselves, and public inputs
//! are bound to what they stand for.

use crate::circuit::{
    compiled, hybrid_attempt, hybrid_for_own_size, hybrid_replacements, hybrid_shape,
    recursion_replacements, run_ends, unified_attempt, unified_for_own_size, unified_shape,
    CircuitKind, CompileError, INITIAL_LOG_SIZE,
};
use crate::circuit_laws::number_at;
use crate::claims::{parsed_claim, Claim, Reduction};
use crate::ext::{embed, fseq, EF};
use crate::field::F;
use crate::hash::{compress, is_compression, lemma_compress};
use crate::inputs::{
    batch_public_input, chain, default_hybrid_input, default_unified_input, lemma_chain_digest,
    roots,
};
use crate::layout_laws::{lemma_default_is_zero_claim, lemma_hybrid_layout, lemma_unified_layout};
use crate::machine::{is_whir_grid, is_whir_row, MachineParams, WhirSummary};
use crate::proving::unified_leaf_public_input;
use crate::recursion::{
    hybrid_ready, hybrid_recursion_result, lemma_hybrid_result_shape, lemma_unified_result_shape,
    recursion_ready, unified_recursion_result,
};
use crate::template_laws::{
    lemma_hybrid_keys, lemma_recursion_constants, lemma_unified_keeps_batch_constants,
};
use crate::text::Replacements;
use crate::types::{digest_view, Batch, Commitment, Digest};
use crate::vm::{
    claim_len_padded, point_n_vars, sizes_fit, Bytecode, Evaluation, Verified, VmParams, Witness,
};
use vstd::prelude::*;

verus! {

/// The program comes out of compiling the unified template with constants that say its own
/// size, the first element of its own encoding and the least size of a low-degree test for a
/// program of its size, and with the constants of the batch circuit as given.
pub open spec fn refers_to_itself<
    B,
    C: Fn(CircuitKind, Replacements) -> Bytecode<B>,
    S: Fn(usize) -> usize,
>(
    compile: C,
    min_stacked: S,
    base: Map<Seq<char>, Seq<char>>,
    bytecode: Bytecode<B>,
    r: Replacements,
    ms: usize,
) -> bool {
    &&& call_ensures(compile, (CircuitKind::Unified, r), bytecode)
    &&& call_ensures(min_stacked, (bytecode.log_size,), ms)
    &&& number_at(r@, "LOG_GUEST_BYTECODE_LEN_PLACEHOLDER"@) == bytecode.log_size
    &&& number_at(r@, "BYTECODE_ZERO_EVAL_PLACEHOLDER"@) == bytecode.zero_eval@
    &&& number_at(r@, "MIN_STACKED_N_VARS_PLACEHOLDER"@) == ms
    &&& r@["__CODEWORD_LEN__"@] == base["__CODEWORD_LEN__"@]
    &&& r@["__BATCH_SIZE__"@] == base["__BATCH_SIZE__"@]
    &&& r@["__NUM_FOLD_ROUNDS__"@] == base["__NUM_FOLD_ROUNDS__"@]
}

/// A unified circuit that comes out is compiled for itself.
pub proof fn lemma_unified_refers_to_itself<
    B,
    C: Fn(CircuitKind, Replacements) -> Bytecode<B>,
    W: Fn(usize, usize) -> WhirSummary,
    S: Fn(usize) -> usize,
>(
    vm: VmParams,
    m: MachineParams,
    compile: C,
    whir: W,
    min_stacked: S,
    base: Map<Seq<char>, Seq<char>>,
    bytecode: Bytecode<B>,
)
    requires
        unified_for_own_size(vm, m, compile, whir, min_stacked, base, bytecode),
    ensures
        exists|r: Replacements, ms: usize| #[trigger]
            refers_to_itself(compile, min_stacked, base, bytecode, r, ms),
{
    reveal(unified_attempt);
    let guess = bytecode.log_size;
    let one = choose|one: F|
        one@ == 1 && #[trigger] unified_attempt(
            vm,
            m,
            compile,
            whir,
            min_stacked,
            base,
            guess,
            one,
            bytecode,
        );
    let (ms, configs) = choose|ms: usize, configs: Seq<Vec<WhirSummary>>|
        call_ensures(min_stacked, (guess,), ms) && is_whir_grid(
            whir,
            m,
            ms as int,
            configs,
        ) && compiled(
            compile,
            CircuitKind::Unified,
            #[trigger] recursion_replacements(
                base,
                vm,
                m,
                configs,
                unified_shape(vm, guess as int, ms, one),
            ),
            bytecode,
        );
    let shape = unified_shape(vm, guess as int, ms, one);
    let want = recursion_replacements(base, vm, m, configs, shape);
    let r = choose|r: Replacements|
        r.wf() && r@ == want && #[trigger] call_ensures(
            compile,
            (CircuitKind::Unified, r),
            bytecode,
        );
    lemma_recursion_constants(base, vm, m, configs, shape);
    lemma_unified_keeps_batch_constants(base, vm, m, configs, shape);
    assert(refers_to_itself(compile, min_stacked, base, bytecode, r, ms));
}

/// The second program comes out of compiling the hybrid template with constants that say its
/// own size and the first element of its own encoding, and those of the inner program.
pub open spec fn refers_to_both<B, C: Fn(CircuitKind, Replacements) -> Bytecode<B>>(
    compile: C,
    programs: (Bytecode<B>, Bytecode<B>),
    r: Replacements,
) -> bool {
    let (inner, hybrid) = programs;
    &&& call_ensures(compile, (CircuitKind::Hybrid, r), hybrid)
    &&& number_at(r@, "LOG_GUEST_BYTECODE_LEN_PLACEHOLDER"@) == hybrid.log_size
    &&& number_at(r@, "BYTECODE_ZERO_EVAL_PLACEHOLDER"@) == hybrid.zero_eval@
    &&& number_at(r@, "__INNER_LOG_GUEST_BL__"@) == inner.log_size
    &&& number_at(r@, "__INNER_BYTECODE_ZERO_EVAL__"@) == inner.zero_eval@
}

/// A hybrid circuit that comes out is compiled for itself and for the inner program.
pub proof fn lemma_hybrid_refers_to_both<
    B,
    C: Fn(CircuitKind, Replacements) -> Bytecode<B>,
    W: Fn(usize, usize) -> WhirSummary,
    S: Fn(usize) -> usize,
>(
    vm: VmParams,
    m: MachineParams,
    compile: C,
    whir: W,
    min_stacked: S,
    programs: (Bytecode<B>, Bytecode<B>),
)
    requires
        hybrid_for_own_size(vm, m, compile, whir, min_stacked, programs),
    ensures
        exists|r: Replacements| #[trigger] refers_to_both(compile, programs, r),
{
    reveal(hybrid_attempt);
    let (inner, hybrid) = programs;
    let guess = hybrid.log_size;
    let one = choose|one: F|
        one@ == 1 && #[trigger] hybrid_attempt(
            vm,
            m,
            compile,
            whir,
            min_stacked,
            inner,
            guess,
            one,
            hybrid,
        );
    let (ms, inner_ms, configs) = choose|
        ms: usize,
        inner_ms: usize,
        configs: Seq<Vec<WhirSummary>>,
    |
        call_ensures(min_stacked, (guess,), ms) && call_ensures(
            min_stacked,
            (inner.log_size,),
            inner_ms,
        ) && is_whir_grid(
            whir,
            m,
            crate::circuit::smaller(ms, inner_ms) as int,
            configs,
        ) && compiled(
            compile,
            CircuitKind::Hybrid,
            #[trigger] hybrid_replacements(
                vm,
                m,
                configs,
                hybrid_shape(vm, guess as int, ms, inner, inner_ms, one),
                inner,
            ),
            hybrid,
        );
    let shape = hybrid_shape(vm, guess as int, ms, inner, inner_ms, one);
    let want = hybrid_replacements(vm, m, configs, shape, inner);
    let r = choose|r: Replacements|
        r.wf() && r@ == want && #[trigger] call_ensures(
            compile,
            (CircuitKind::Hybrid, r),
            hybrid,
        );
    lemma_hybrid_keys(vm, m, configs, shape, inner);
    assert(refers_to_both(compile, programs, r));
}

/// The grid of low-degree tests has a test for every rate and every number of variables from
/// the least to the most that the two-adic domain of size `2^24` allows at that rate, and it is
/// what was asked for with that rate and number.
pub proof fn lemma_whir_grid_complete<W: Fn(usize, usize) -> WhirSummary>(
    whir: W,
    m: MachineParams,
    min_stacked: int,
    configs: Seq<Vec<WhirSummary>>,
    rate: usize,
    n: usize,
)
    requires
        is_whir_grid(whir, m, min_stacked, configs),
        m.min_whir_log_inv_rate <= rate <= m.max_whir_log_inv_rate,
        min_stacked >= 0,
        min_stacked <= n,
        n + rate <= 24 + m.whir_initial_folding_factor,
    ensures
        ({
            let (i, j) = (rate - m.min_whir_log_inv_rate, n - min_stacked);
            &&& 0 <= i < configs.len()
            &&& 0 <= j < configs[i]@.len()
            &&& call_ensures(whir, (rate, n), configs[i]@[j])
            &&& configs.len() + m.min_whir_log_inv_rate == m.max_whir_log_inv_rate + 1
            &&& configs[i]@.len() + min_stacked + rate == 25 + m.whir_initial_folding_factor
        }),
{
    let (i, j) = (rate - m.min_whir_log_inv_rate, n - min_stacked);
    assert(is_whir_row(whir, m, min_stacked, m.min_whir_log_inv_rate + i, configs[i]@));
    let w = configs[i]@[j];
    assert((min_stacked + j) as usize == n);
}

// Public inputs.

/// The public input of the batch circuit is the chain over the roots of the commitments, and
/// the program's hash compressed with the domain separator.
pub proof fn lemma_batch_public_input_parts<H: Fn(Digest, Digest) -> Digest, B>(
    h: H,
    vm: VmParams,
    commitments: Seq<Commitment>,
    bytecode: Bytecode<B>,
)
    requires
        is_compression(h),
    ensures
        ({
            let x = batch_public_input(h, vm, commitments, Some(bytecode.hash));
            &&& x.len() == 16
            &&& x.take(8) == chain(
                h,
                Seq::new(commitments.len(), |i: int| digest_view(commitments[i].root)),
            )
            &&& x.skip(8) == compress(h, digest_view(bytecode.hash), digest_view(vm.domain_sep))
            &&& batch_public_input(h, vm, commitments, None) == x.take(8)
        }),
{
    let x = batch_public_input(h, vm, commitments, Some(bytecode.hash));
    lemma_chain_digest(h, roots(commitments));
    lemma_compress(h, digest_view(bytecode.hash), digest_view(vm.domain_sep));
    assert(roots(commitments) =~= Seq::new(
        commitments.len(),
        |i: int| digest_view(commitments[i].root),
    ));
    assert(x.take(8) =~= chain(h, roots(commitments)));
    assert(x.skip(8) =~= compress(h, digest_view(bytecode.hash), digest_view(vm.domain_sep)));
    assert(batch_public_input(h, vm, commitments, None) =~= x.take(8));
}

/// The public input of the unified circuit for one raw batch starts with the chain over the
/// one hash of the batch's commitments, carries the claim on the zero point, and ends with the
/// program's hash compressed with the domain separator.
pub proof fn lemma_unified_leaf_public_input_parts<H: Fn(Digest, Digest) -> Digest, B>(
    h: H,
    vm: VmParams,
    bytecode: Bytecode<B>,
    batch: Batch,
)
    requires
        is_compression(h),
    ensures
        ({
            let x = unified_leaf_public_input(h, vm, bytecode, batch);
            let n = point_n_vars(bytecode.log_size as int, vm.n_instruction_columns as int);
            let hash = chain(
                h,
                Seq::new(batch.commitments@.len(), |i: int| digest_view(batch.commitments@[i].root)),
            );
            &&& x.take(8) == compress(h, Seq::new(8, |i: int| 0int), hash)
            &&& parsed_claim(x, 8, n) == (Claim {
                point: Seq::new(n as nat, |i: int| embed(0)),
                value: embed(bytecode.zero_eval@),
            })
            &&& x.skip(x.len() - 8) == compress(
                h,
                digest_view(bytecode.hash),
                digest_view(vm.domain_sep),
            )
            &&& x == default_unified_input(h, vm, seq![hash], bytecode)
        }),
{
    let n = point_n_vars(bytecode.log_size as int, vm.n_instruction_columns as int);
    let rts = roots(batch.commitments@);
    let hash = chain(h, rts);
    assert(rts =~= Seq::new(
        batch.commitments@.len(),
        |i: int| digest_view(batch.commitments@[i].root),
    ));
    lemma_default_is_zero_claim(n, bytecode.zero_eval@);
    let c = crate::claims::zero_claim(n, bytecode.zero_eval@);
    lemma_chain_digest(h, seq![hash]);
    lemma_compress(h, digest_view(bytecode.hash), digest_view(vm.domain_sep));
    lemma_unified_layout(
        chain(h, seq![hash]),
        c.point,
        embed(bytecode.zero_eval@),
        compress(h, digest_view(bytecode.hash), digest_view(vm.domain_sep)),
    );
    crate::core_laws::lemma_chain_grows(h, Seq::empty(), hash);
    assert(Seq::<Seq<int>>::empty().push(hash) =~= seq![hash]);
    assert(c.point =~= Seq::new(n as nat, |i: int| embed(0)));
}

/// The public input of a unified recursion starts with the chain over the first eight elements
/// of the public inputs of its children, in their order, and ends with the program's hash
/// compressed with the domain separator.
pub proof fn lemma_unified_recursion_hash<
    H: Fn(Digest, Digest) -> Digest,
    B,
    P,
    S,
    V: Fn(&Bytecode<B>, &Vec<F>, &P) -> Result<Verified, String>,
    G: Fn(&Vec<Evaluation>) -> (S, EF),
    R: Fn(S, &Bytecode<B>, &Vec<Evaluation>, &Vec<EF>, EF) -> Reduction,
    Z: Fn(&Bytecode<B>, &Vec<F>, &Witness, usize) -> P,
>(
    h: H,
    vm: VmParams,
    verify: V,
    begin: G,
    sumcheck: R,
    prove: Z,
    bytecode: Bytecode<B>,
    rate: usize,
    proofs: Seq<(Vec<F>, P)>,
    result: (P, Vec<F>),
)
    requires
        is_compression(h),
        recursion_ready(h, vm, verify, begin, sumcheck, prove, bytecode, rate, proofs),
        unified_recursion_result(
            h,
            vm,
            verify,
            begin,
            sumcheck,
            prove,
            bytecode,
            rate,
            proofs,
            result,
        ),
    ensures
        ({
            let x = fseq(result.1@);
            &&& x.take(8) == chain(h, Seq::new(proofs.len(), |i: int| fseq(proofs[i].0@).take(8)))
            &&& x.skip(x.len() - 8) == compress(
                h,
                digest_view(bytecode.hash),
                digest_view(vm.domain_sep),
            )
        }),
{
    lemma_unified_result_shape(
        h,
        vm,
        verify,
        begin,
        sumcheck,
        prove,
        bytecode,
        rate,
        proofs,
        result,
    );
    let heads = Seq::new(proofs.len(), |i: int| fseq(proofs[i].0@).take(8));
    let hashes = crate::recursion::leading_digests(proofs);
    assert(hashes =~= heads);
    lemma_default_parts(h, vm, heads, bytecode);
}

/// The first and the last digest of the public input for given hashes.
proof fn lemma_default_parts<H: Fn(Digest, Digest) -> Digest, B>(
    h: H,
    vm: VmParams,
    hashes: Seq<Seq<int>>,
    bytecode: Bytecode<B>,
)
    requires
        is_compression(h),
    ensures
        ({
            let d = default_unified_input(h, vm, hashes, bytecode);
            &&& d.take(8) == chain(h, hashes)
            &&& d.skip(d.len() - 8) == compress(
                h,
                digest_view(bytecode.hash),
                digest_view(vm.domain_sep),
            )
        }),
{
    let n = point_n_vars(bytecode.log_size as int, vm.n_instruction_columns as int);
    lemma_default_is_zero_claim(n, bytecode.zero_eval@);
    let c = crate::claims::zero_claim(n, bytecode.zero_eval@);
    lemma_chain_digest(h, hashes);
    lemma_compress(h, digest_view(bytecode.hash), digest_view(vm.domain_sep));
    lemma_unified_layout(
        chain(h, hashes),
        c.point,
        embed(bytecode.zero_eval@),
        compress(h, digest_view(bytecode.hash), digest_view(vm.domain_sep)),
    );
}

/// The public input of the hybrid circuit for given hashes: their chain first, the claims on
/// the zero points of both programs, and the hashes of both programs, each compressed with the
/// domain separator, the inner one first.
pub proof fn lemma_hybrid_public_input_parts<H: Fn(Digest, Digest) -> Digest, B>(
    h: H,
    vm: VmParams,
    hashes: Seq<Seq<int>>,
    inner: Bytecode<B>,
    hybrid: Bytecode<B>,
)
    requires
        is_compression(h),
    ensures
        ({
            let cols = vm.n_instruction_columns as int;
            let (n, m) = (
                point_n_vars(inner.log_size as int, cols),
                point_n_vars(hybrid.log_size as int, cols),
            );
            let x = default_hybrid_input(h, vm, hashes, inner, hybrid);
            &&& x.take(8) == chain(h, hashes)
            &&& parsed_claim(x, 8, n) == (Claim {
                point: Seq::new(n as nat, |i: int| embed(0)),
                value: embed(inner.zero_eval@),
            })
            &&& parsed_claim(x, 8 + claim_len_padded(n), m) == (Claim {
                point: Seq::new(m as nat, |i: int| embed(0)),
                value: embed(hybrid.zero_eval@),
            })
            &&& x.subrange(x.len() - 16, x.len() - 8) == compress(
                h,
                digest_view(inner.hash),
                digest_view(vm.domain_sep),
            )
            &&& x.skip(x.len() - 8) == compress(
                h,
                digest_view(hybrid.hash),
                digest_view(vm.domain_sep),
            )
        }),
{
    let cols = vm.n_instruction_columns as int;
    let n = point_n_vars(inner.log_size as int, cols);
    let m = point_n_vars(hybrid.log_size as int, cols);
    lemma_default_is_zero_claim(n, inner.zero_eval@);
    lemma_default_is_zero_claim(m, hybrid.zero_eval@);
    let a = crate::claims::zero_claim(n, inner.zero_eval@);
    let b = crate::claims::zero_claim(m, hybrid.zero_eval@);
    lemma_chain_digest(h, hashes);
    lemma_compress(h, digest_view(inner.hash), digest_view(vm.domain_sep));
    lemma_compress(h, digest_view(hybrid.hash), digest_view(vm.domain_sep));
    lemma_hybrid_layout(
        chain(h, hashes),
        a.point,
        embed(inner.zero_eval@),
        b.point,
        embed(hybrid.zero_eval@),
        compress(h, digest_view(inner.hash), digest_view(vm.domain_sep)),
        compress(h, digest_view(hybrid.hash), digest_view(vm.domain_sep)),
    );
    assert(a.point =~= Seq::new(n as nat, |i: int| embed(0)));
    assert(b.point =~= Seq::new(m as nat, |i: int| embed(0)));
}

/// The public input of a hybrid recursion starts with the chain over the first eight elements
/// of the public inputs of its children, those of the hybrid circuit before those of the inner
/// one, and ends with the hashes of both programs, each compressed with the domain separator.
pub proof fn lemma_hybrid_recursion_hash<
    H: Fn(Digest, Digest) -> Digest,
    B,
    P,
    S,
    V: Fn(&Bytecode<B>, &Vec<F>, &P) -> Result<Verified, String>,
    G: Fn(&Vec<Evaluation>) -> (S, EF),
    R: Fn(S, &Bytecode<B>, &Vec<Evaluation>, &Vec<EF>, EF) -> Reduction,
    Z: Fn(&Bytecode<B>, &Vec<F>, &Witness, usize) -> P,
>(
    h: H,
    vm: VmParams,
    verify: V,
    begin: G,
    sumcheck: R,
    prove: Z,
    hybrid: Bytecode<B>,
    inner: Bytecode<B>,
    rate: usize,
    self_proofs: Seq<(Vec<F>, P)>,
    inner_proofs: Seq<(Vec<F>, P)>,
    result: (P, Vec<F>),
)
    requires
        is_compression(h),
        hybrid_ready(
            h,
            vm,
            verify,
            begin,
            sumcheck,
            prove,
            hybrid,
            inner,
            rate,
            self_proofs,
            inner_proofs,
        ),
        hybrid_recursion_result(
            h,
            vm,
            verify,
            begin,
            sumcheck,
            prove,
            hybrid,
            inner,
            rate,
            self_proofs,
            inner_proofs,
            result,
        ),
    ensures
        ({
            let x = fseq(result.1@);
            let k = self_proofs.len();
            &&& x.take(8) == chain(
                h,
                Seq::new(
                    k + inner_proofs.len(),
                    |i: int| if i < k {
                        fseq(self_proofs[i].0@).take(8)
                    } else {
                        fseq(inner_proofs[i - k].0@).take(8)
                    },
                ),
            )
            &&& x.skip(x.len() - 16) == compress(
                h,
                digest_view(inner.hash),
                digest_view(vm.domain_sep),
            ) + compress(h, digest_view(hybrid.hash), digest_view(vm.domain_sep))
        }),
{
    lemma_hybrid_result_shape(
        h,
        vm,
        verify,
        begin,
        sumcheck,
        prove,
        hybrid,
        inner,
        rate,
        self_proofs,
        inner_proofs,
        result,
    );
    let k = self_proofs.len();
    let heads = Seq::new(
        k + inner_proofs.len(),
        |i: int| if i < k {
            fseq(self_proofs[i].0@).take(8)
        } else {
            fseq(inner_proofs[i - k].0@).take(8)
        },
    );
    let hashes = crate::recursion::leading_digests(self_proofs)
        + crate::recursion::leading_digests(inner_proofs);
    assert(hashes =~= heads);
    lemma_hybrid_public_input_parts(h, vm, heads, inner, hybrid);
    let d = default_hybrid_input(h, vm, heads, inner, hybrid);
    let (u, w) = (d.subrange(d.len() - 16, d.len() - 8), d.skip(d.len() - 8));
    assert(d.skip(d.len() - 16) =~= u + w);
}

/// How a run of attempts to compile a circuit for its own size ends. The first attempt is
/// for the initial size, and each other for the size that the one before came out with. The
/// run is done when an attempt comes out with the size that it was for; it fails at the
/// first program whose encoding does not start with one, at the first new size that is too
/// large, and when the attempts are used up.
pub proof fn lemma_run_means<B>(
    trace: Seq<Bytecode<B>>,
    attempts: int,
    error: Option<CompileError>,
    i: int,
)
    requires
        run_ends(trace, attempts, error),
        0 <= i < trace.len(),
    ensures
        ({
            let aim = if i == 0 {
                INITIAL_LOG_SIZE
            } else {
                trace[i - 1].log_size
            };
            let own = trace[i].log_size;
            let starts_with_one = trace[i].zero_eval@ == 1;
            let last = i == trace.len() - 1;
            &&& trace.len() <= attempts
            &&& last && error is None <==> starts_with_one && own == aim
            &&& last && error == Some(CompileError::WrongZeroEval) <==> !starts_with_one
            &&& last && error == Some(CompileError::TooLarge) <==> starts_with_one && own != aim
                && !sizes_fit(own as int)
            &&& error == Some(CompileError::NotConverged) ==> trace.len() == attempts
        }),
{
    if i < trace.len() - 1 {
        assert(crate::circuit::goes_on(trace, i));
    }
}

/// A circuit whose size does not depend on the size that it is compiled for is compiled at
/// the second attempt, or at the first where it has the initial size.
pub proof fn lemma_stable_size_is_found<B>(
    trace: Seq<Bytecode<B>>,
    attempts: int,
    error: Option<CompileError>,
    size: usize,
)
    requires
        run_ends(trace, attempts, error),
        attempts >= 2,
        sizes_fit(size as int),
        forall|i: int|
            0 <= i < trace.len() ==> (#[trigger] trace[i]).log_size == size
                && trace[i].zero_eval@ == 1,
    ensures
        error is None,
        trace.len() == (if size == INITIAL_LOG_SIZE {
            1int
        } else {
            2
        }),
{
    let k = trace.len() - 1;
    if k >= 0 {
        lemma_run_means(trace, attempts, error, 0);
        let first = trace[0];
    }
    if k >= 1 {
        lemma_run_means(trace, attempts, error, 1);
        let second = trace[1];
    }
}

/// A run ends in one way only.
pub proof fn lemma_run_end_is_unique<B>(
    trace: Seq<Bytecode<B>>,
    attempts: int,
    a: Option<CompileError>,
    b: Option<CompileError>,
)
    requires
        run_ends(trace, attempts, a),
        run_ends(trace, attempts, b),
    ensures
        a == b,
{
}

} // verus!
