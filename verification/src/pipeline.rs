//! The proving pipeline: commit to all codewords, partition them into batches, prove
//! each batch and aggregate the proofs.

use crate::aggregation::{aggregate_proofs, covered, is_leaf, AggregatedProof};
use crate::batch::{
    batch_proved, derived_challenges, prepare_batch, prove_batch, prove_batch_zkvm, BatchProof,
};
use crate::circuit::{
    circuit_params, compile_das_circuit, compiled, compiles, das_replacements, CircuitKind,
};
use crate::commitment::{codeword_root, commit_codeword_epl, commit_params};
use crate::ext::eseq;
use crate::field::F;
use crate::hash::is_compression;
use crate::polynomial::domain_size;
use crate::proving::proves_circuit;
use crate::rlc::{cw_views, same_length};
use crate::slices::{
    chunk, chunk_count, chunk_end, copy_range, flat, lemma_chunk_bounds, lemma_chunk_total,
    lemma_flat_chunks, lemma_flat_singles,
};
use crate::text::Replacements;
use crate::types::{compute_evals_per_leaf, Batch, Codeword, Commitment, Digest, MIN_EVALS_PER_LEAF};
use crate::vm::{Bytecode, VmParams, Witness};
use crate::witness::covers_first;
use vstd::arithmetic::power2::is_pow2;
use vstd::prelude::*;

verus! {

/// Configuration of the proving pipeline.
#[derive(Debug)]
pub struct DasConfig {
    /// Number of codewords per batch.
    pub batch_size: usize,
    /// Whether to prove inside the virtual machine or run in reference mode.
    pub zkvm_mode: bool,
    /// Number of evaluations in each leaf of a commitment: at least sixteen, a multiple
    /// of eight and a divisor of the codeword length. Where there is none, it follows
    /// from the codeword length.
    pub evals_per_leaf: Option<usize>,
    /// Number of coefficients of the polynomials: a power of two and at most half the
    /// codeword length.
    pub degree: usize,
    /// Number of batches to prove at the same time; zero for one after the other.
    pub parallel: usize,
}

impl Default for DasConfig {
    fn default() -> (r: Self)
        ensures
            r.batch_size == 8,
            !r.zkvm_mode,
            r.evals_per_leaf is None,
            r.degree == 1,
            r.parallel == 0,
    {
        DasConfig {
            batch_size: 8,
            zkvm_mode: false,
            evals_per_leaf: None,
            degree: 1,
            parallel: 0,
        }
    }
}

/// Result of the proving pipeline.
#[derive(Debug)]
pub struct DasProof<P> {
    /// Commitments to all codewords.
    pub commitments: Vec<Commitment>,
    /// The aggregated proof that all codewords are valid.
    pub aggregated_proof: AggregatedProof<P>,
    /// Number of codewords per batch.
    pub batch_size: usize,
    /// Length of the codewords.
    pub codeword_length: usize,
    /// Number of evaluations in each leaf of a commitment.
    pub evals_per_leaf: usize,
    /// Number of coefficients of the polynomials.
    pub degree: usize,
}

/// The number of evaluations per leaf for codewords of length `n`.
pub open spec fn leaf_size(config: DasConfig, n: int) -> usize {
    match config.evals_per_leaf {
        Some(e) => e,
        None => if n <= 128 {
            MIN_EVALS_PER_LEAF
        } else {
            64
        },
    }
}

/// Choose the number of evaluations per leaf for codewords of length `n`.
fn choose_leaf_size(config: &DasConfig, n: usize) -> (r: usize)
    ensures
        r == leaf_size(*config, n as int),
{
    match config.evals_per_leaf {
        Some(e) => e,
        None => compute_evals_per_leaf(n),
    }
}

/// The number of codewords per batch for `m` codewords.
pub open spec fn used_batch_size(config: DasConfig, m: int) -> int {
    if config.batch_size <= m {
        config.batch_size as int
    } else {
        m
    }
}

/// The number of batches that `m` codewords make.
pub fn count_batches(m: usize, batch_size: usize) -> (r: usize)
    requires
        m > 0,
        batch_size > 0,
    ensures
        r == chunk_count(m as int, batch_size as int),
{
    proof {
        let (n, k) = (m as int, batch_size as int);
        let q = (n - 1) / k;
        let r = (n - 1) % k;
        vstd::arithmetic::div_mod::lemma_fundamental_div_mod(n - 1, k);
        assert(0 <= q <= n - 1) by (nonlinear_arith)
            requires
                n - 1 == k * q + r,
                0 <= r < k,
                n >= 1,
        ;
        assert(n + k - 1 == k * (q + 1) + r) by (nonlinear_arith)
            requires
                n - 1 == k * q + r,
        ;
        vstd::arithmetic::div_mod::lemma_fundamental_div_mod_converse(n + k - 1, k, q + 1, r);
    }
    (m - 1) / batch_size + 1
}

/// Batch `j` of the codewords, in batches of `k`.
pub open spec fn is_batch(
    batch: Batch,
    codewords: Seq<Codeword>,
    commitments: Seq<Commitment>,
    k: int,
    j: int,
) -> bool {
    &&& batch.indices@.len() == chunk(codewords, k, j).len()
    &&& forall|i: int|
        0 <= i < batch.indices@.len() ==> (#[trigger] batch.indices@[i]) == j * k + i
    &&& cw_views(batch.codewords@) == cw_views(chunk(codewords, k, j))
    &&& batch.commitments@ == chunk(commitments, k, j)
    &&& eseq(batch.challenges@) == derived_challenges(chunk(commitments, k, j))
}

/// Make one batch of the codewords and their commitments.
pub fn make_batch(
    codewords: &Vec<Codeword>,
    commitments: &Vec<Commitment>,
    batch_size: usize,
    batch_idx: usize,
) -> (r: Batch)
    requires
        batch_size > 0,
        commitments@.len() == codewords@.len(),
        batch_idx < chunk_count(codewords@.len() as int, batch_size as int),
    ensures
        is_batch(r, codewords@, commitments@, batch_size as int, batch_idx as int),
{
    let m: usize = codewords.len();
    let ghost (k, j) = (batch_size as int, batch_idx as int);
    proof {
        lemma_chunk_bounds(m as int, k, j);
        assert((j + 1) * k == j * k + k) by (nonlinear_arith);
    }
    let start: usize = batch_idx * batch_size;
    let end: usize = if m - start <= batch_size {
        m
    } else {
        start + batch_size
    };
    let mut indices: Vec<usize> = Vec::new();
    let mut batch_codewords: Vec<Codeword> = Vec::new();
    let mut i: usize = start;
    while i < end
        invariant
            start <= i <= end <= codewords@.len(),
            indices@.len() == i - start,
            batch_codewords@.len() == i - start,
            forall|t: int| 0 <= t < i - start ==> (#[trigger] indices@[t]) == start + t,
            forall|t: int|
                0 <= t < i - start ==> (#[trigger] batch_codewords@[t])@ == codewords@[start
                    + t]@,
        decreases end - i,
    {
        indices.push(i);
        batch_codewords.push(codewords[i].clone());
        i = i + 1;
    }
    let batch_commitments = copy_range(commitments.as_slice(), start, end);
    assert(cw_views(batch_codewords@) =~= cw_views(chunk(codewords@, k, j)));
    prepare_batch(indices, batch_codewords, batch_commitments)
}

/// How the batches are proved.
#[derive(Clone, Copy, Debug, PartialEq, Eq, Structural)]
pub enum Schedule {
    /// Natively, with no proofs.
    Reference,
    /// One after the other, to limit memory.
    Sequential,
    /// In groups of `concurrency`, each batch with threads of its own.
    Parallel { concurrency: usize, threads_per_batch: usize },
}

/// Decide how to prove the batches with the given number of threads.
pub fn schedule(config: &DasConfig, num_batches: usize, total_threads: usize) -> (r: Schedule)
    ensures
        r == (if !config.zkvm_mode {
            Schedule::Reference
        } else if num_batches <= 1 || config.parallel == 0 {
            Schedule::Sequential
        } else {
            let concurrency = if config.parallel <= num_batches {
                config.parallel
            } else {
                num_batches
            };
            Schedule::Parallel {
                concurrency,
                threads_per_batch: if total_threads / concurrency >= 1 {
                    total_threads / concurrency
                } else {
                    1
                },
            }
        }),
        r is Reference <==> !config.zkvm_mode,
        r matches Schedule::Parallel { concurrency, threads_per_batch } ==> {
            &&& 1 <= concurrency <= num_batches
            &&& concurrency <= config.parallel
            &&& concurrency == num_batches || concurrency == config.parallel
            &&& threads_per_batch >= 1
            &&& concurrency <= total_threads ==> concurrency * threads_per_batch <= total_threads
                < concurrency * (threads_per_batch + 1)
            &&& concurrency > total_threads ==> threads_per_batch == 1
        },
{
    if config.zkvm_mode && num_batches > 1 && config.parallel > 0 {
        let concurrency: usize = if config.parallel <= num_batches {
            config.parallel
        } else {
            num_batches
        };
        let share: usize = total_threads / concurrency;
        proof {
            let (t, c, q) = (total_threads as int, concurrency as int, share as int);
            vstd::arithmetic::div_mod::lemma_fundamental_div_mod(t, c);
            assert(c * q <= t < c * (q + 1)) by (nonlinear_arith)
                requires
                    t == c * q + t % c,
                    0 <= t % c < c,
            ;
            assert(c <= t ==> q >= 1) by (nonlinear_arith)
                requires
                    c * q <= t < c * (q + 1),
                    c > 0,
            ;
            assert(c > t ==> q < 1) by (nonlinear_arith)
                requires
                    c * q <= t < c * (q + 1),
                    c > 0,
            ;
        }
        let threads_per_batch: usize = if share >= 1 {
            share
        } else {
            1
        };
        Schedule::Parallel { concurrency, threads_per_batch }
    } else if config.zkvm_mode {
        Schedule::Sequential
    } else {
        Schedule::Reference
    }
}

/// The groups of batches that are proved at the same time, each from its first batch up
/// to the first of the next.
pub fn batch_groups(num_batches: usize, concurrency: usize) -> (r: Vec<(usize, usize)>)
    requires
        concurrency > 0,
    ensures
        r@.len() == chunk_count(num_batches as int, concurrency as int),
        forall|g: int|
            0 <= g < r@.len() ==> (#[trigger] r@[g]).0 == g * concurrency && r@[g].1 == chunk_end(
                num_batches as int,
                concurrency as int,
                g + 1,
            ),
        num_batches == 0 ==> r@.len() == 0,
        num_batches > 0 ==> r@.len() > 0 && r@[0].0 == 0 && r@[r@.len() - 1].1 == num_batches,
        forall|g: int| 0 < g < r@.len() ==> (#[trigger] r@[g]).0 == r@[g - 1].1,
        forall|g: int|
            0 <= g < r@.len() ==> (#[trigger] r@[g]).0 < r@[g].1 <= r@[g].0 + concurrency,
        forall|g: int| 0 <= g < r@.len() - 1 ==> (#[trigger] r@[g]).1 == r@[g].0 + concurrency,
{
    let mut groups: Vec<(usize, usize)> = Vec::new();
    let mut start: usize = 0;
    let ghost (n, k) = (num_batches as int, concurrency as int);
    proof {
        lemma_chunk_total(n, k);
    }
    while start < num_batches
        invariant
            concurrency > 0,
            n == num_batches,
            k == concurrency,
            start == chunk_end(n, k, groups@.len() as int),
            start == n ==> groups@.len() == chunk_count(n, k),
            start < n ==> groups@.len() < chunk_count(n, k),
            forall|g: int|
                0 <= g < groups@.len() ==> (#[trigger] groups@[g]).0 == g * k && groups@[g].1
                    == chunk_end(n, k, g + 1),
        decreases num_batches - start,
    {
        proof {
            let j = groups@.len() as int;
            lemma_chunk_bounds(n, k, j);
            assert((j + 1) * k == j * k + k) by (nonlinear_arith);
        }
        let end: usize = if num_batches - start <= concurrency {
            num_batches
        } else {
            start + concurrency
        };
        groups.push((start, end));
        start = end;
    }
    proof {
        let c = groups@.len() as int;
        assert forall|g: int| 0 <= g < c implies (#[trigger] groups@[g]).0 < groups@[g].1
            <= groups@[g].0 + k && (g + 1 < c ==> groups@[g].1 == groups@[g].0 + k) && (g > 0
            ==> groups@[g].0 == groups@[g - 1].1) && (g == c - 1 ==> groups@[g].1 == n) by {
            lemma_chunk_bounds(n, k, g);
            assert((g + 1) * k == g * k + k) by (nonlinear_arith);
            if g + 1 < c {
                lemma_chunk_bounds(n, k, g + 1);
            }
            if g > 0 {
                lemma_chunk_bounds(n, k, g - 1);
                assert(groups@[g - 1].1 == chunk_end(n, k, g));
            }
        }
        if n > 0 {
            assert(0 * k == 0);
            assert(groups@[0].0 == 0 * k);
        }
    }
    groups
}

/// `commitments` are the commitments to the codewords.
pub open spec fn are_commitments<H: Fn(Digest, Digest) -> Digest>(
    h: H,
    codewords: Seq<Codeword>,
    epl: int,
    commitments: Seq<Commitment>,
) -> bool {
    &&& commitments.len() == codewords.len()
    &&& forall|i: int|
        0 <= i < codewords.len() ==> (#[trigger] commitments[i])@ == codeword_root(
            h,
            codewords[i]@,
            epl,
        )
}

/// Commit to all codewords.
pub fn commit_all<H: Fn(Digest, Digest) -> Digest>(
    h: &H,
    codewords: &Vec<Codeword>,
    epl: usize,
) -> (r: Vec<Commitment>)
    requires
        is_compression(*h),
        forall|i: int|
            0 <= i < codewords@.len() ==> commit_params(
                (#[trigger] codewords@[i])@.len() as int,
                epl as int,
            ),
    ensures
        are_commitments(*h, codewords@, epl as int, r@),
{
    let mut out: Vec<Commitment> = Vec::with_capacity(codewords.len());
    let mut i: usize = 0;
    while i < codewords.len()
        invariant
            is_compression(*h),
            forall|i: int|
                0 <= i < codewords@.len() ==> commit_params(
                    (#[trigger] codewords@[i])@.len() as int,
                    epl as int,
                ),
            i <= codewords@.len(),
            out@.len() == i,
            forall|t: int|
                0 <= t < i ==> (#[trigger] out@[t])@ == codeword_root(
                    *h,
                    codewords@[t]@,
                    epl as int,
                ),
        decreases codewords@.len() - i,
    {
        out.push(commit_codeword_epl(h, &codewords[i], epl));
        i = i + 1;
    }
    out
}

/// A batch that can be proved natively: its codewords have the same length, for which
/// there is a domain.
pub open spec fn foldable(codewords: Seq<Codeword>) -> bool {
    &&& same_length(codewords, codewords[0]@.len() as int)
    &&& domain_size(codewords[0]@.len() as int)
}

/// The reference proofs of the batches: the commitments of each, and no proof.
pub open spec fn batches_checked<P>(
    commitments: Seq<Commitment>,
    k: int,
    proofs: Seq<BatchProof<P>>,
) -> bool {
    &&& proofs.len() == chunk_count(commitments.len() as int, k)
    &&& forall|j: int|
        0 <= j < proofs.len() ==> (#[trigger] proofs[j]).commitments@ == chunk(
            commitments,
            k,
            j,
        ) && proofs[j].proof is None && proofs[j].public_input is None
}

/// The same lengths in codewords with the same views.
proof fn lemma_batch_lengths(
    batch: Batch,
    codewords: Seq<Codeword>,
    commitments: Seq<Commitment>,
    k: int,
    j: int,
)
    requires
        k > 0,
        codewords.len() == commitments.len(),
        0 <= j < chunk_count(codewords.len() as int, k),
        is_batch(batch, codewords, commitments, k, j),
    ensures
        batch.codewords@.len() == chunk(codewords, k, j).len(),
        batch.codewords@.len() > 0,
        batch.codewords@.len() == batch.commitments@.len(),
        batch.codewords@.len() == batch.challenges@.len(),
        forall|i: int|
            0 <= i < batch.codewords@.len() ==> (#[trigger] batch.codewords@[i])@ == chunk(
                codewords,
                k,
                j,
            )[i]@,
{
    lemma_chunk_bounds(codewords.len() as int, k, j);
    assert(cw_views(batch.codewords@).len() == batch.codewords@.len());
    assert(eseq(batch.challenges@).len() == batch.challenges@.len());
    assert forall|i: int| 0 <= i < batch.codewords@.len() implies (
    #[trigger] batch.codewords@[i])@ == chunk(codewords, k, j)[i]@ by {
        assert(cw_views(batch.codewords@)[i] == cw_views(chunk(codewords, k, j))[i]);
    }
}

/// Prove all batches in reference mode.
pub fn prove_batches_reference<P>(
    codewords: &Vec<Codeword>,
    commitments: &Vec<Commitment>,
    batch_size: usize,
) -> (r: Vec<BatchProof<P>>)
    requires
        codewords@.len() > 0,
        batch_size > 0,
        commitments@.len() == codewords@.len(),
        forall|j: int|
            0 <= j < chunk_count(codewords@.len() as int, batch_size as int) ==> foldable(
                #[trigger] chunk(codewords@, batch_size as int, j),
            ),
    ensures
        batches_checked(commitments@, batch_size as int, r@),
{
    let num_batches: usize = count_batches(codewords.len(), batch_size);
    let ghost k = batch_size as int;
    let mut out: Vec<BatchProof<P>> = Vec::new();
    let mut j: usize = 0;
    while j < num_batches
        invariant
            j <= num_batches == chunk_count(codewords@.len() as int, k),
            k == batch_size > 0,
            commitments@.len() == codewords@.len(),
            forall|j: int|
                0 <= j < chunk_count(codewords@.len() as int, k) ==> foldable(
                    #[trigger] chunk(codewords@, k, j),
                ),
            out@.len() == j,
            forall|t: int|
                0 <= t < j ==> (#[trigger] out@[t]).commitments@ == chunk(commitments@, k, t)
                    && out@[t].proof is None && out@[t].public_input is None,
        decreases num_batches - j,
    {
        let batch = make_batch(codewords, commitments, batch_size, j);
        proof {
            lemma_batch_lengths(batch, codewords@, commitments@, k, j as int);
            assert(foldable(chunk(codewords@, k, j as int)));
        }
        out.push(prove_batch(&batch));
        j = j + 1;
    }
    out
}

/// `bp` proves batch `j`.
pub open spec fn proves_batch<
    H: Fn(Digest, Digest) -> Digest,
    B,
    P,
    Z: Fn(&Bytecode<B>, &Vec<F>, &Witness, usize) -> P,
>(
    h: H,
    vm: VmParams,
    prove: Z,
    bytecode: Bytecode<B>,
    codewords: Seq<Codeword>,
    commitments: Seq<Commitment>,
    k: int,
    j: int,
    bp: BatchProof<P>,
) -> bool {
    exists|batch: Batch|
        is_batch(batch, codewords, commitments, k, j) && #[trigger] batch_proved(
            h,
            vm,
            prove,
            bytecode,
            batch,
            bp,
        )
}

/// The proofs of the batches by the batch circuit.
pub open spec fn batches_proved<
    H: Fn(Digest, Digest) -> Digest,
    B,
    P,
    Z: Fn(&Bytecode<B>, &Vec<F>, &Witness, usize) -> P,
>(
    h: H,
    vm: VmParams,
    prove: Z,
    bytecode: Bytecode<B>,
    codewords: Seq<Codeword>,
    commitments: Seq<Commitment>,
    k: int,
    proofs: Seq<BatchProof<P>>,
) -> bool {
    &&& proofs.len() == chunk_count(codewords.len() as int, k)
    &&& forall|j: int|
        0 <= j < proofs.len() ==> proves_batch(
            h,
            vm,
            prove,
            bytecode,
            codewords,
            commitments,
            k,
            j,
            #[trigger] proofs[j],
        )
}

/// A batch that can be proved inside the virtual machine.
pub open spec fn runnable(codewords: Seq<Codeword>) -> bool {
    covers_first(codewords) && is_pow2(codewords[0]@.len() as int)
}

/// Prove all batches inside the virtual machine, one after the other.
pub fn prove_batches_zkvm<
    H: Fn(Digest, Digest) -> Digest,
    B,
    P,
    Z: Fn(&Bytecode<B>, &Vec<F>, &Witness, usize) -> P,
>(
    h: &H,
    vm: &VmParams,
    prove: &Z,
    codewords: &Vec<Codeword>,
    commitments: &Vec<Commitment>,
    batch_size: usize,
    bytecode: &Bytecode<B>,
    degree: usize,
) -> (r: Vec<BatchProof<P>>)
    requires
        is_compression(*h),
        forall|j: int, batch: Batch|
            0 <= j < chunk_count(codewords@.len() as int, batch_size as int)
                && #[trigger] is_batch(
                batch,
                codewords@,
                commitments@,
                batch_size as int,
                j,
            ) ==> proves_circuit(*h, *vm, *prove, *bytecode, batch),
        codewords@.len() > 0,
        batch_size > 0,
        commitments@.len() == codewords@.len(),
        forall|j: int|
            0 <= j < chunk_count(codewords@.len() as int, batch_size as int) ==> runnable(
                #[trigger] chunk(codewords@, batch_size as int, j),
            ),
    ensures
        batches_proved(
            *h,
            *vm,
            *prove,
            *bytecode,
            codewords@,
            commitments@,
            batch_size as int,
            r@,
        ),
{
    let num_batches: usize = count_batches(codewords.len(), batch_size);
    let ghost k = batch_size as int;
    let mut out: Vec<BatchProof<P>> = Vec::new();
    let mut j: usize = 0;
    while j < num_batches
        invariant
            is_compression(*h),
            forall|j: int, batch: Batch|
                0 <= j < chunk_count(codewords@.len() as int, k) && #[trigger] is_batch(
                    batch,
                    codewords@,
                    commitments@,
                    k,
                    j,
                ) ==> proves_circuit(*h, *vm, *prove, *bytecode, batch),
            j <= num_batches == chunk_count(codewords@.len() as int, k),
            k == batch_size > 0,
            commitments@.len() == codewords@.len(),
            forall|j: int|
                0 <= j < chunk_count(codewords@.len() as int, k) ==> runnable(
                    #[trigger] chunk(codewords@, k, j),
                ),
            out@.len() == j,
            forall|t: int|
                0 <= t < j ==> proves_batch(
                    *h,
                    *vm,
                    *prove,
                    *bytecode,
                    codewords@,
                    commitments@,
                    k,
                    t,
                    #[trigger] out@[t],
                ),
        decreases num_batches - j,
    {
        let batch = make_batch(codewords, commitments, batch_size, j);
        proof {
            lemma_batch_lengths(batch, codewords@, commitments@, k, j as int);
            let part = chunk(codewords@, k, j as int);
            assert(runnable(part));
            assert forall|i: int| 0 <= i < batch.codewords@.len() implies (
            #[trigger] batch.codewords@[i])@.len() >= batch.codewords@[0]@.len() by {
                assert(part[i]@.len() >= part[0]@.len());
            }
        }
        let bp = prove_batch_zkvm(h, vm, prove, &batch, bytecode, degree);
        assert(proves_batch(
            *h,
            *vm,
            *prove,
            *bytecode,
            codewords@,
            commitments@,
            k,
            j as int,
            bp,
        ));
        out.push(bp);
        j = j + 1;
    }
    out
}

/// Aggregate the proofs of batches.
pub fn aggregate_batches<P: Clone>(batch_proofs: Vec<BatchProof<P>>) -> (r: AggregatedProof<P>)
    requires
        batch_proofs@.len() > 0,
    ensures
        r.commitments@ == flat(covered(batch_proofs@)),
        r.batch_proofs@ == batch_proofs@,
        batch_proofs@.len() == 1 ==> is_leaf(batch_proofs@[0], r),
        batch_proofs@.len() > 1 ==> r.proof is None && r.public_input is None,
{
    let ghost all = batch_proofs@;
    let mut rest = batch_proofs;
    let mut leaves: Vec<AggregatedProof<P>> = Vec::new();
    while rest.len() > 0
        invariant
            leaves@.len() + rest@.len() == all.len(),
            rest@ == all.skip(leaves@.len() as int),
            forall|i: int| 0 <= i < leaves@.len() ==> is_leaf(all[i], #[trigger] leaves@[i]),
        decreases rest@.len(),
    {
        let bp = rest.remove(0);
        leaves.push(AggregatedProof::from(bp));
        assert(rest@ =~= all.skip(leaves@.len() as int));
    }
    proof {
        let s = leaves@;
        assert(Seq::new(s.len(), |i: int| s[i].commitments@) =~= covered(all)) by {
            assert forall|i: int| 0 <= i < s.len() implies (#[trigger] s[i]).commitments@
                == all[i].commitments@ by {
                assert(is_leaf(all[i], s[i]));
            }
        }
        let b = Seq::new(s.len(), |i: int| s[i].batch_proofs@);
        assert(b =~= Seq::new(all.len(), |i: int| seq![all[i]])) by {
            assert forall|i: int| 0 <= i < s.len() implies (#[trigger] s[i]).batch_proofs@
                == seq![all[i]] by {
                assert(is_leaf(all[i], s[i]));
            }
        }
        lemma_flat_singles(all);
    }
    aggregate_proofs(leaves)
}

/// The codewords of a batch can be proved in the given mode.
pub open spec fn batch_input(zkvm_mode: bool, codewords: Seq<Codeword>) -> bool {
    if zkvm_mode {
        runnable(codewords)
    } else {
        foldable(codewords)
    }
}

/// Codewords that the pipeline can commit to and prove.
pub open spec fn das_inputs(config: DasConfig, codewords: Seq<Codeword>) -> bool {
    let k = used_batch_size(config, codewords.len() as int);
    &&& codewords.len() > 0
    &&& config.batch_size > 0
    &&& forall|i: int|
        0 <= i < codewords.len() ==> commit_params(
            (#[trigger] codewords[i])@.len() as int,
            leaf_size(config, codewords[0]@.len() as int) as int,
        )
    &&& forall|j: int|
        0 <= j < chunk_count(codewords.len() as int, k) ==> batch_input(
            config.zkvm_mode,
            #[trigger] chunk(codewords, k, j),
        )
}

/// `bytecode` is the batch circuit that the pipeline uses: the given one, or else what
/// `compile` gives.
pub open spec fn used_bytecode<B, C: Fn(CircuitKind, Replacements) -> Bytecode<B>>(
    vm: VmParams,
    compile: C,
    config: DasConfig,
    codewords: Seq<Codeword>,
    given: Option<Bytecode<B>>,
    bytecode: Bytecode<B>,
) -> bool {
    match given {
        Some(b) => bytecode == b,
        None => compiled(
            compile,
            CircuitKind::Batch,
            das_replacements(
                vm,
                used_batch_size(config, codewords.len() as int),
                codewords[0]@.len() as int,
                leaf_size(config, codewords[0]@.len() as int) as int,
                config.degree as int,
            ),
            bytecode,
        ),
    }
}

/// What the pipeline needs of the virtual machine: the circuit can be compiled, where it
/// is not given, and every batch can be proved with it.
pub open spec fn das_machine<
    H: Fn(Digest, Digest) -> Digest,
    B,
    P,
    C: Fn(CircuitKind, Replacements) -> Bytecode<B>,
    Z: Fn(&Bytecode<B>, &Vec<F>, &Witness, usize) -> P,
>(
    h: H,
    vm: VmParams,
    compile: C,
    prove: Z,
    config: DasConfig,
    codewords: Seq<Codeword>,
    given: Option<Bytecode<B>>,
) -> bool {
    let k = used_batch_size(config, codewords.len() as int);
    let n = codewords[0]@.len() as int;
    let epl = leaf_size(config, n) as int;
    config.zkvm_mode ==> {
        &&& given is None ==> circuit_params(n, epl, config.degree as int) && compiles(
            compile,
            CircuitKind::Batch,
            das_replacements(vm, k, n, epl, config.degree as int),
        )
        &&& forall|bytecode: Bytecode<B>, commitments: Seq<Commitment>, j: int, batch: Batch|
            #[trigger] used_bytecode(vm, compile, config, codewords, given, bytecode)
                && are_commitments(h, codewords, epl, commitments) && 0 <= j < chunk_count(
                codewords.len() as int,
                k,
            ) && #[trigger] is_batch(batch, codewords, commitments, k, j) ==> proves_circuit(
                h,
                vm,
                prove,
                bytecode,
                batch,
            )
    }
}

/// The commitments, the batches and the parameters of a proof are those of the codewords
/// and the configuration.
pub open spec fn is_das_proof<H: Fn(Digest, Digest) -> Digest, P: Clone>(
    h: H,
    config: DasConfig,
    codewords: Seq<Codeword>,
    r: DasProof<P>,
) -> bool {
    let k = used_batch_size(config, codewords.len() as int);
    let agg = r.aggregated_proof;
    &&& r.batch_size == k
    &&& r.codeword_length == codewords[0]@.len()
    &&& r.evals_per_leaf == leaf_size(config, codewords[0]@.len() as int)
    &&& r.degree == config.degree
    &&& are_commitments(h, codewords, r.evals_per_leaf as int, r.commitments@)
    &&& agg.commitments@ == r.commitments@
    &&& agg.batch_proofs@.len() == chunk_count(codewords.len() as int, k)
    &&& forall|j: int|
        0 <= j < agg.batch_proofs@.len() ==> (#[trigger] agg.batch_proofs@[j]).commitments@
            == chunk(r.commitments@, k, j)
    &&& agg.batch_proofs@.len() == 1 ==> is_leaf(agg.batch_proofs@[0], agg)
    &&& agg.batch_proofs@.len() > 1 ==> agg.proof is None && agg.public_input is None
}

/// The batch proofs are there in the virtual machine's mode, and made by the given
/// functions; there are none in reference mode.
pub open spec fn has_batch_proofs<
    H: Fn(Digest, Digest) -> Digest,
    B,
    P: Clone,
    C: Fn(CircuitKind, Replacements) -> Bytecode<B>,
    Z: Fn(&Bytecode<B>, &Vec<F>, &Witness, usize) -> P,
>(
    h: H,
    vm: VmParams,
    compile: C,
    prove: Z,
    config: DasConfig,
    codewords: Seq<Codeword>,
    given: Option<Bytecode<B>>,
    r: DasProof<P>,
) -> bool {
    let k = used_batch_size(config, codewords.len() as int);
    let proofs = r.aggregated_proof.batch_proofs@;
    if config.zkvm_mode {
        exists|bytecode: Bytecode<B>|
            used_bytecode(vm, compile, config, codewords, given, bytecode)
                && #[trigger] batches_proved(
                h,
                vm,
                prove,
                bytecode,
                codewords,
                r.commitments@,
                k,
                proofs,
            )
    } else {
        batches_checked(r.commitments@, k, proofs)
    }
}

/// Collect the proofs of the batches and the parameters into the result.
pub fn assemble_proof<P: Clone>(
    config: &DasConfig,
    codeword_length: usize,
    commitments: Vec<Commitment>,
    batch_proofs: Vec<BatchProof<P>>,
) -> (r: DasProof<P>)
    requires
        commitments@.len() > 0,
        config.batch_size > 0,
        batch_proofs@.len() == chunk_count(
            commitments@.len() as int,
            used_batch_size(*config, commitments@.len() as int),
        ),
        forall|j: int|
            0 <= j < batch_proofs@.len() ==> (#[trigger] batch_proofs@[j]).commitments@ == chunk(
                commitments@,
                used_batch_size(*config, commitments@.len() as int),
                j,
            ),
    ensures
        r.commitments@ == commitments@,
        r.batch_size == used_batch_size(*config, commitments@.len() as int),
        r.codeword_length == codeword_length,
        r.evals_per_leaf == leaf_size(*config, codeword_length as int),
        r.degree == config.degree,
        r.aggregated_proof.commitments@ == commitments@,
        r.aggregated_proof.batch_proofs@ == batch_proofs@,
        batch_proofs@.len() == 1 ==> is_leaf(batch_proofs@[0], r.aggregated_proof),
        batch_proofs@.len() > 1 ==> r.aggregated_proof.proof is None
            && r.aggregated_proof.public_input is None,
{
    let m: usize = commitments.len();
    let batch_size: usize = if config.batch_size <= m {
        config.batch_size
    } else {
        m
    };
    proof {
        let k = batch_size as int;
        lemma_chunk_total(m as int, k);
        lemma_flat_chunks(commitments@, k);
        assert(covered(batch_proofs@) =~= Seq::new(
            chunk_count(m as int, k) as nat,
            |j: int| chunk(commitments@, k, j),
        ));
    }
    let aggregated_proof = aggregate_batches(batch_proofs);
    DasProof {
        commitments,
        aggregated_proof,
        batch_size,
        codeword_length,
        evals_per_leaf: choose_leaf_size(config, codeword_length),
        degree: config.degree,
    }
}

/// Run the pipeline with a circuit that is compiled already, if it is given.
pub fn prove_das_with_bytecode<
    H: Fn(Digest, Digest) -> Digest,
    B,
    P: Clone,
    C: Fn(CircuitKind, Replacements) -> Bytecode<B>,
    Z: Fn(&Bytecode<B>, &Vec<F>, &Witness, usize) -> P,
>(
    h: &H,
    vm: &VmParams,
    compile: &C,
    prove: &Z,
    codewords: Vec<Codeword>,
    config: &DasConfig,
    bytecode: Option<Bytecode<B>>,
) -> (r: DasProof<P>)
    requires
        is_compression(*h),
        das_inputs(*config, codewords@),
        das_machine(*h, *vm, *compile, *prove, *config, codewords@, bytecode),
    ensures
        is_das_proof(*h, *config, codewords@, r),
        has_batch_proofs(*h, *vm, *compile, *prove, *config, codewords@, bytecode, r),
{
    let m: usize = codewords.len();
    let n: usize = codewords[0].len();
    let epl: usize = choose_leaf_size(config, n);
    let batch_size: usize = if config.batch_size <= m {
        config.batch_size
    } else {
        m
    };
    let ghost k = batch_size as int;
    let commitments = commit_all(h, &codewords, epl);
    assert(k == used_batch_size(*config, codewords@.len() as int));
    assert forall|j: int| 0 <= j < chunk_count(m as int, k) implies batch_input(
        config.zkvm_mode,
        #[trigger] chunk(codewords@, k, j),
    ) by {}
    let batch_proofs: Vec<BatchProof<P>> = if config.zkvm_mode {
        let ghost given = bytecode;
        let program: Bytecode<B> = match bytecode {
            Some(b) => b,
            None => compile_das_circuit(vm, compile, batch_size, n, epl, config.degree),
        };
        assert(used_bytecode(*vm, *compile, *config, codewords@, given, program));
        let proofs = prove_batches_zkvm(
            h,
            vm,
            prove,
            &codewords,
            &commitments,
            batch_size,
            &program,
            config.degree,
        );
        proof {
            assert forall|j: int| 0 <= j < proofs@.len() implies (
            #[trigger] proofs@[j]).commitments@ == chunk(commitments@, k, j) by {
                assert(proves_batch(
                    *h,
                    *vm,
                    *prove,
                    program,
                    codewords@,
                    commitments@,
                    k,
                    j,
                    proofs@[j],
                ));
            }
        }
        proofs
    } else {
        prove_batches_reference(&codewords, &commitments, batch_size)
    };
    assemble_proof(config, n, commitments, batch_proofs)
}

/// Run the pipeline: commit to the codewords, and prove that every one is valid.
pub fn prove_das<
    H: Fn(Digest, Digest) -> Digest,
    B,
    P: Clone,
    C: Fn(CircuitKind, Replacements) -> Bytecode<B>,
    Z: Fn(&Bytecode<B>, &Vec<F>, &Witness, usize) -> P,
>(
    h: &H,
    vm: &VmParams,
    compile: &C,
    prove: &Z,
    codewords: Vec<Codeword>,
    config: &DasConfig,
) -> (r: DasProof<P>)
    requires
        is_compression(*h),
        das_inputs(*config, codewords@),
        das_machine(*h, *vm, *compile, *prove, *config, codewords@, None),
    ensures
        is_das_proof(*h, *config, codewords@, r),
        has_batch_proofs(*h, *vm, *compile, *prove, *config, codewords@, None, r),
{
    prove_das_with_bytecode(h, vm, compile, prove, codewords, config, None)
}

} // verus!
