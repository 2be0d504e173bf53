//! Recursion over many levels: proofs are taken a fixed number at a time and replaced by
//! one proof of their verification, until one is left.

use crate::circuit::MAX_INNER_PROOFS;
use crate::claims::{Reduction};
use crate::ext::EF;
use crate::field::F;
use crate::hash::is_compression;
use crate::recursion::{
    acceptable, hybrid_ready, hybrid_recursion_result, inner_acceptable, prove_hybrid_recursion,
    prove_unified_recursion, recursion_ready, self_acceptable, unified_recursion_result,
};
use crate::slices::{chunk, chunk_count, chunk_end, lemma_chunk_bounds, lemma_chunk_total};
use crate::tree::{is_chunk_layer, is_chunk_tree, lemma_chunk_tree_push};
use crate::types::Digest;
use crate::vm::{sizes_fit, Bytecode, Evaluation, Verified, VmParams, Witness};
use vstd::prelude::*;

verus! {

/// Cut the next `k` elements, or what is left, off the front.
fn cut_front<T>(rest: Vec<T>, k: usize) -> (r: (Vec<T>, Vec<T>))
    ensures
        r.0@ == rest@.take(if k <= rest@.len() {
            k as int
        } else {
            rest@.len() as int
        }),
        r.1@ == rest@.skip(if k <= rest@.len() {
            k as int
        } else {
            rest@.len() as int
        }),
{
    let mut front = rest;
    let cut: usize = if k <= front.len() {
        k
    } else {
        front.len()
    };
    let back = front.split_off(cut);
    (front, back)
}

/// How a proof of the unified recursion relates to the proofs that it verifies.
pub open spec fn unified_parent<
    H: Fn(Digest, Digest) -> Digest,
    B,
    P,
    S,
    V: Fn(&Bytecode<B>, &Vec<F>, &P) -> Result<Verified, String>,
    G: Fn(&Vec<Evaluation>) -> (S, EF),
    R: Fn(S, &Bytecode<B>, &Vec<Evaluation>, &Vec<EF>, EF) -> Reduction,
    Z: Fn(&Bytecode<B>, &Vec<F>, &Witness, usize) -> P,
>(
    h: H,
    vm: VmParams,
    verify: V,
    begin: G,
    sumcheck: R,
    prove: Z,
    bytecode: Bytecode<B>,
    rate: usize,
) -> spec_fn(Seq<(Vec<F>, P)>, (Vec<F>, P)) -> bool {
    |children: Seq<(Vec<F>, P)>, c: (Vec<F>, P)|
        unified_recursion_result(
            h,
            vm,
            verify,
            begin,
            sumcheck,
            prove,
            bytecode,
            rate,
            children,
            (c.1, c.0),
        )
}

/// Up to `MAX_INNER_PROOFS` acceptable proofs can be recursed over, and what that gives
/// is acceptable again.
pub open spec fn sustains_unified<
    H: Fn(Digest, Digest) -> Digest,
    B,
    P,
    S,
    V: Fn(&Bytecode<B>, &Vec<F>, &P) -> Result<Verified, String>,
    G: Fn(&Vec<Evaluation>) -> (S, EF),
    R: Fn(S, &Bytecode<B>, &Vec<Evaluation>, &Vec<EF>, EF) -> Reduction,
    Z: Fn(&Bytecode<B>, &Vec<F>, &Witness, usize) -> P,
>(
    h: H,
    vm: VmParams,
    verify: V,
    begin: G,
    sumcheck: R,
    prove: Z,
    bytecode: Bytecode<B>,
    rate: usize,
) -> bool {
    &&& forall|proofs: Seq<(Vec<F>, P)>|
        0 < proofs.len() <= MAX_INNER_PROOFS && (forall|i: int|
            0 <= i < proofs.len() ==> acceptable(vm, verify, bytecode, #[trigger] proofs[i]))
            ==> #[trigger] recursion_ready(
            h,
            vm,
            verify,
            begin,
            sumcheck,
            prove,
            bytecode,
            rate,
            proofs,
        )
    &&& forall|proofs: Seq<(Vec<F>, P)>, c: (Vec<F>, P)|
        recursion_ready(h, vm, verify, begin, sumcheck, prove, bytecode, rate, proofs)
            && #[trigger] unified_parent(
            h,
            vm,
            verify,
            begin,
            sumcheck,
            prove,
            bytecode,
            rate,
        )(proofs, c) ==> acceptable(vm, verify, bytecode, c)
}

/// One level of the unified recursion.
fn recurse_unified_level<
    H: Fn(Digest, Digest) -> Digest,
    B,
    P,
    S,
    V: Fn(&Bytecode<B>, &Vec<F>, &P) -> Result<Verified, String>,
    G: Fn(&Vec<Evaluation>) -> (S, EF),
    R: Fn(S, &Bytecode<B>, &Vec<Evaluation>, &Vec<EF>, EF) -> Reduction,
    Z: Fn(&Bytecode<B>, &Vec<F>, &Witness, usize) -> P,
>(
    h: &H,
    vm: &VmParams,
    verify: &V,
    begin: &G,
    sumcheck: &R,
    prove: &Z,
    layer: Vec<(Vec<F>, P)>,
    bytecode: &Bytecode<B>,
    log_inv_rate: usize,
    fan_in: usize,
) -> (next: Vec<(Vec<F>, P)>)
    requires
        is_compression(*h),
        sizes_fit(bytecode.log_size as int),
        sustains_unified(*h, *vm, *verify, *begin, *sumcheck, *prove, *bytecode, log_inv_rate),
        fan_in >= 1,
        fan_in <= MAX_INNER_PROOFS || layer@.len() <= MAX_INNER_PROOFS,
        forall|i: int|
            0 <= i < layer@.len() ==> acceptable(*vm, *verify, *bytecode, #[trigger] layer@[i]),
    ensures
        is_chunk_layer(
            unified_parent(
                *h,
                *vm,
                *verify,
                *begin,
                *sumcheck,
                *prove,
                *bytecode,
                log_inv_rate,
            ),
            layer@,
            fan_in as int,
            next@,
        ),
        forall|i: int|
            0 <= i < next@.len() ==> acceptable(*vm, *verify, *bytecode, #[trigger] next@[i]),
{
    let ghost all = layer@;
    let ghost n = all.len() as int;
    let ghost k = fan_in as int;
    let ghost node = unified_parent(
        *h,
        *vm,
        *verify,
        *begin,
        *sumcheck,
        *prove,
        *bytecode,
        log_inv_rate,
    );
    let mut rest = layer;
    let mut next: Vec<(Vec<F>, P)> = Vec::new();
    proof {
        lemma_chunk_total(n, k);
        assert(rest@ =~= all.skip(0));
    }
    while rest.len() > 0
        invariant
            is_compression(*h),
            sizes_fit(bytecode.log_size as int),
            sustains_unified(*h, *vm, *verify, *begin, *sumcheck, *prove, *bytecode, log_inv_rate),
            fan_in >= 1,
            fan_in <= MAX_INNER_PROOFS || n <= MAX_INNER_PROOFS,
            k == fan_in,
            n == all.len(),
            node == unified_parent(
                *h,
                *vm,
                *verify,
                *begin,
                *sumcheck,
                *prove,
                *bytecode,
                log_inv_rate,
            ),
            forall|i: int|
                0 <= i < all.len() ==> acceptable(*vm, *verify, *bytecode, #[trigger] all[i]),
            next@.len() <= chunk_count(n, k),
            rest@ == all.skip(chunk_end(n, k, next@.len() as int)),
            0 <= chunk_end(n, k, next@.len() as int) <= n,
            rest@.len() == 0 ==> next@.len() == chunk_count(n, k),
            rest@.len() > 0 ==> next@.len() < chunk_count(n, k),
            forall|j: int| 0 <= j < next@.len() ==> node(chunk(all, k, j), #[trigger] next@[j]),
            forall|i: int|
                0 <= i < next@.len() ==> acceptable(*vm, *verify, *bytecode, #[trigger] next@[i]),
        decreases rest@.len(),
    {
        let ghost j = next@.len() as int;
        proof {
            lemma_chunk_bounds(n, k, j);
            assert((j + 1) * k == j * k + k) by (nonlinear_arith);
        }
        let (part, back) = cut_front(rest, fan_in);
        proof {
            assert(part@ =~= chunk(all, k, j));
            assert(back@ =~= all.skip(chunk_end(n, k, j + 1)));
            assert forall|i: int| 0 <= i < part@.len() implies acceptable(
                *vm,
                *verify,
                *bytecode,
                #[trigger] part@[i],
            ) by {
                assert(part@[i] == all[j * k + i]);
            }
            assert(recursion_ready(
                *h,
                *vm,
                *verify,
                *begin,
                *sumcheck,
                *prove,
                *bytecode,
                log_inv_rate,
                part@,
            ));
        }
        let (proof, public_input) = prove_unified_recursion(
            h,
            vm,
            verify,
            begin,
            sumcheck,
            prove,
            &part,
            bytecode,
            log_inv_rate,
        );
        let c = (public_input, proof);
        assert(node(part@, c));
        next.push(c);
        rest = back;
    }
    next
}

/// Recurse over proofs of the unified circuit, `fan_in` at a time, until at most one is
/// left; returns what is left and the number of levels.
pub fn recurse_unified<
    H: Fn(Digest, Digest) -> Digest,
    B,
    P,
    S,
    V: Fn(&Bytecode<B>, &Vec<F>, &P) -> Result<Verified, String>,
    G: Fn(&Vec<Evaluation>) -> (S, EF),
    R: Fn(S, &Bytecode<B>, &Vec<Evaluation>, &Vec<EF>, EF) -> Reduction,
    Z: Fn(&Bytecode<B>, &Vec<F>, &Witness, usize) -> P,
>(
    h: &H,
    vm: &VmParams,
    verify: &V,
    begin: &G,
    sumcheck: &R,
    prove: &Z,
    proofs: Vec<(Vec<F>, P)>,
    bytecode: &Bytecode<B>,
    log_inv_rate: usize,
    fan_in: usize,
) -> (r: (Vec<(Vec<F>, P)>, usize))
    requires
        is_compression(*h),
        sizes_fit(bytecode.log_size as int),
        sustains_unified(*h, *vm, *verify, *begin, *sumcheck, *prove, *bytecode, log_inv_rate),
        fan_in >= 2,
        fan_in <= MAX_INNER_PROOFS || proofs@.len() <= MAX_INNER_PROOFS,
        forall|i: int|
            0 <= i < proofs@.len() ==> acceptable(*vm, *verify, *bytecode, #[trigger] proofs@[i]),
    ensures
        exists|layers: Seq<Seq<(Vec<F>, P)>>| #[trigger]
            is_chunk_tree(
                unified_parent(
                    *h,
                    *vm,
                    *verify,
                    *begin,
                    *sumcheck,
                    *prove,
                    *bytecode,
                    log_inv_rate,
                ),
                layers,
                fan_in as int,
            ) && layers[0] == proofs@ && layers.last() == r.0@ && layers.len() == r.1 + 1,
        r.0@.len() == (if proofs@.len() == 0 {
            0int
        } else {
            1
        }),
{
    let ghost k = fan_in as int;
    let ghost all = proofs@;
    let ghost node = unified_parent(
        *h,
        *vm,
        *verify,
        *begin,
        *sumcheck,
        *prove,
        *bytecode,
        log_inv_rate,
    );
    let ghost mut layers = seq![proofs@];
    let mut layer = proofs;
    let mut levels: usize = 0;
    let total: usize = layer.len();
    while layer.len() > 1
        invariant
            is_compression(*h),
            sizes_fit(bytecode.log_size as int),
            sustains_unified(*h, *vm, *verify, *begin, *sumcheck, *prove, *bytecode, log_inv_rate),
            fan_in >= 2,
            k == fan_in,
            total == all.len(),
            layer@.len() <= all.len(),
            all.len() > 0 ==> layer@.len() > 0,
            levels + layer@.len() <= total,
            fan_in <= MAX_INNER_PROOFS || all.len() <= MAX_INNER_PROOFS,
            node == unified_parent(
                *h,
                *vm,
                *verify,
                *begin,
                *sumcheck,
                *prove,
                *bytecode,
                log_inv_rate,
            ),
            forall|i: int|
                0 <= i < layer@.len() ==> acceptable(
                    *vm,
                    *verify,
                    *bytecode,
                    #[trigger] layer@[i],
                ),
            is_chunk_tree(node, layers, k),
            layers[0] == all,
            layers.last() == layer@,
            layers.len() == levels + 1,
        decreases layer@.len(),
    {
        let ghost before = layer@;
        let next = recurse_unified_level(
            h,
            vm,
            verify,
            begin,
            sumcheck,
            prove,
            layer,
            bytecode,
            log_inv_rate,
            fan_in,
        );
        proof {
            lemma_chunk_total(before.len() as int, k);
            lemma_chunk_tree_push(node, layers, k, next@);
            layers = layers.push(next@);
        }
        layer = next;
        levels = levels + 1;
    }
    (layer, levels)
}

/// How a proof of the hybrid recursion relates to the proofs that it verifies: proofs of
/// the hybrid circuit itself, or proofs of the inner circuit.
pub open spec fn hybrid_parent<
    H: Fn(Digest, Digest) -> Digest,
    B,
    P,
    S,
    V: Fn(&Bytecode<B>, &Vec<F>, &P) -> Result<Verified, String>,
    G: Fn(&Vec<Evaluation>) -> (S, EF),
    R: Fn(S, &Bytecode<B>, &Vec<Evaluation>, &Vec<EF>, EF) -> Reduction,
    Z: Fn(&Bytecode<B>, &Vec<F>, &Witness, usize) -> P,
>(
    h: H,
    vm: VmParams,
    verify: V,
    begin: G,
    sumcheck: R,
    prove: Z,
    hybrid: Bytecode<B>,
    inner: Bytecode<B>,
    rate: usize,
    of_self: bool,
) -> spec_fn(Seq<(Vec<F>, P)>, (Vec<F>, P)) -> bool {
    |children: Seq<(Vec<F>, P)>, c: (Vec<F>, P)|
        hybrid_recursion_result(
            h,
            vm,
            verify,
            begin,
            sumcheck,
            prove,
            hybrid,
            inner,
            rate,
            if of_self {
                children
            } else {
                Seq::empty()
            },
            if of_self {
                Seq::empty()
            } else {
                children
            },
            (c.1, c.0),
        )
}

/// A proof that the hybrid circuit can verify, of the hybrid circuit itself or of the
/// inner circuit.
pub open spec fn child_of_hybrid<
    B,
    P,
    V: Fn(&Bytecode<B>, &Vec<F>, &P) -> Result<Verified, String>,
>(
    vm: VmParams,
    verify: V,
    hybrid: Bytecode<B>,
    inner: Bytecode<B>,
    of_self: bool,
    c: (Vec<F>, P),
) -> bool {
    if of_self {
        self_acceptable(vm, verify, hybrid, inner, c)
    } else {
        inner_acceptable(vm, verify, inner, c)
    }
}

/// The proofs are ready for one step of the hybrid recursion, as proofs of the hybrid
/// circuit itself or as proofs of the inner circuit.
pub open spec fn hybrid_step_ready<
    H: Fn(Digest, Digest) -> Digest,
    B,
    P,
    S,
    V: Fn(&Bytecode<B>, &Vec<F>, &P) -> Result<Verified, String>,
    G: Fn(&Vec<Evaluation>) -> (S, EF),
    R: Fn(S, &Bytecode<B>, &Vec<Evaluation>, &Vec<EF>, EF) -> Reduction,
    Z: Fn(&Bytecode<B>, &Vec<F>, &Witness, usize) -> P,
>(
    h: H,
    vm: VmParams,
    verify: V,
    begin: G,
    sumcheck: R,
    prove: Z,
    hybrid: Bytecode<B>,
    inner: Bytecode<B>,
    rate: usize,
    of_self: bool,
    children: Seq<(Vec<F>, P)>,
) -> bool {
    hybrid_ready(
        h,
        vm,
        verify,
        begin,
        sumcheck,
        prove,
        hybrid,
        inner,
        rate,
        if of_self {
            children
        } else {
            Seq::empty()
        },
        if of_self {
            Seq::empty()
        } else {
            children
        },
    )
}

/// Up to `MAX_INNER_PROOFS` proofs of either circuit can be recursed over, and what that
/// gives is a proof of the hybrid circuit that can be recursed over.
pub open spec fn sustains_hybrid<
    H: Fn(Digest, Digest) -> Digest,
    B,
    P,
    S,
    V: Fn(&Bytecode<B>, &Vec<F>, &P) -> Result<Verified, String>,
    G: Fn(&Vec<Evaluation>) -> (S, EF),
    R: Fn(S, &Bytecode<B>, &Vec<Evaluation>, &Vec<EF>, EF) -> Reduction,
    Z: Fn(&Bytecode<B>, &Vec<F>, &Witness, usize) -> P,
>(
    h: H,
    vm: VmParams,
    verify: V,
    begin: G,
    sumcheck: R,
    prove: Z,
    hybrid: Bytecode<B>,
    inner: Bytecode<B>,
    rate: usize,
) -> bool {
    &&& forall|proofs: Seq<(Vec<F>, P)>, of_self: bool|
        0 < proofs.len() <= MAX_INNER_PROOFS && (forall|i: int|
            0 <= i < proofs.len() ==> child_of_hybrid(
                vm,
                verify,
                hybrid,
                inner,
                of_self,
                #[trigger] proofs[i],
            )) ==> #[trigger] hybrid_step_ready(
            h,
            vm,
            verify,
            begin,
            sumcheck,
            prove,
            hybrid,
            inner,
            rate,
            of_self,
            proofs,
        )
    &&& forall|proofs: Seq<(Vec<F>, P)>, of_self: bool, c: (Vec<F>, P)|
        hybrid_step_ready(
            h,
            vm,
            verify,
            begin,
            sumcheck,
            prove,
            hybrid,
            inner,
            rate,
            of_self,
            proofs,
        ) && #[trigger] hybrid_parent(
            h,
            vm,
            verify,
            begin,
            sumcheck,
            prove,
            hybrid,
            inner,
            rate,
            of_self,
        )(proofs, c) ==> self_acceptable(vm, verify, hybrid, inner, c)
}

/// One level of the hybrid recursion.
fn recurse_hybrid_level<
    H: Fn(Digest, Digest) -> Digest,
    B,
    P,
    S,
    V: Fn(&Bytecode<B>, &Vec<F>, &P) -> Result<Verified, String>,
    G: Fn(&Vec<Evaluation>) -> (S, EF),
    R: Fn(S, &Bytecode<B>, &Vec<Evaluation>, &Vec<EF>, EF) -> Reduction,
    Z: Fn(&Bytecode<B>, &Vec<F>, &Witness, usize) -> P,
>(
    h: &H,
    vm: &VmParams,
    verify: &V,
    begin: &G,
    sumcheck: &R,
    prove: &Z,
    layer: Vec<(Vec<F>, P)>,
    of_self: bool,
    hybrid_bytecode: &Bytecode<B>,
    inner_bytecode: &Bytecode<B>,
    log_inv_rate: usize,
    fan_in: usize,
) -> (next: Vec<(Vec<F>, P)>)
    requires
        is_compression(*h),
        sizes_fit(hybrid_bytecode.log_size as int),
        sizes_fit(inner_bytecode.log_size as int),
        sustains_hybrid(
            *h,
            *vm,
            *verify,
            *begin,
            *sumcheck,
            *prove,
            *hybrid_bytecode,
            *inner_bytecode,
            log_inv_rate,
        ),
        fan_in >= 1,
        fan_in <= MAX_INNER_PROOFS || layer@.len() <= MAX_INNER_PROOFS,
        forall|i: int|
            0 <= i < layer@.len() ==> child_of_hybrid(
                *vm,
                *verify,
                *hybrid_bytecode,
                *inner_bytecode,
                of_self,
                #[trigger] layer@[i],
            ),
    ensures
        is_chunk_layer(
            hybrid_parent(
                *h,
                *vm,
                *verify,
                *begin,
                *sumcheck,
                *prove,
                *hybrid_bytecode,
                *inner_bytecode,
                log_inv_rate,
                of_self,
            ),
            layer@,
            fan_in as int,
            next@,
        ),
        forall|i: int|
            0 <= i < next@.len() ==> child_of_hybrid(
                *vm,
                *verify,
                *hybrid_bytecode,
                *inner_bytecode,
                true,
                #[trigger] next@[i],
            ),
{
    let ghost all = layer@;
    let ghost n = all.len() as int;
    let ghost k = fan_in as int;
    let ghost node = hybrid_parent(
        *h,
        *vm,
        *verify,
        *begin,
        *sumcheck,
        *prove,
        *hybrid_bytecode,
        *inner_bytecode,
        log_inv_rate,
        of_self,
    );
    let mut rest = layer;
    let mut next: Vec<(Vec<F>, P)> = Vec::new();
    proof {
        lemma_chunk_total(n, k);
        assert(rest@ =~= all.skip(0));
    }
    while rest.len() > 0
        invariant
            is_compression(*h),
            sizes_fit(hybrid_bytecode.log_size as int),
            sizes_fit(inner_bytecode.log_size as int),
            sustains_hybrid(
                *h,
                *vm,
                *verify,
                *begin,
                *sumcheck,
                *prove,
                *hybrid_bytecode,
                *inner_bytecode,
                log_inv_rate,
            ),
            fan_in >= 1,
            fan_in <= MAX_INNER_PROOFS || n <= MAX_INNER_PROOFS,
            k == fan_in,
            n == all.len(),
            node == hybrid_parent(
                *h,
                *vm,
                *verify,
                *begin,
                *sumcheck,
                *prove,
                *hybrid_bytecode,
                *inner_bytecode,
                log_inv_rate,
                of_self,
            ),
            forall|i: int|
                0 <= i < all.len() ==> child_of_hybrid(
                    *vm,
                    *verify,
                    *hybrid_bytecode,
                    *inner_bytecode,
                    of_self,
                    #[trigger] all[i],
                ),
            next@.len() <= chunk_count(n, k),
            rest@ == all.skip(chunk_end(n, k, next@.len() as int)),
            0 <= chunk_end(n, k, next@.len() as int) <= n,
            rest@.len() == 0 ==> next@.len() == chunk_count(n, k),
            rest@.len() > 0 ==> next@.len() < chunk_count(n, k),
            forall|j: int| 0 <= j < next@.len() ==> node(chunk(all, k, j), #[trigger] next@[j]),
            forall|i: int|
                0 <= i < next@.len() ==> child_of_hybrid(
                    *vm,
                    *verify,
                    *hybrid_bytecode,
                    *inner_bytecode,
                    true,
                    #[trigger] next@[i],
                ),
        decreases rest@.len(),
    {
        let ghost j = next@.len() as int;
        proof {
            lemma_chunk_bounds(n, k, j);
            assert((j + 1) * k == j * k + k) by (nonlinear_arith);
        }
        let (part, back) = cut_front(rest, fan_in);
        proof {
            assert(part@ =~= chunk(all, k, j));
            assert(back@ =~= all.skip(chunk_end(n, k, j + 1)));
            assert forall|i: int| 0 <= i < part@.len() implies child_of_hybrid(
                *vm,
                *verify,
                *hybrid_bytecode,
                *inner_bytecode,
                of_self,
                #[trigger] part@[i],
            ) by {
                assert(part@[i] == all[j * k + i]);
            }
            assert(hybrid_step_ready(
                *h,
                *vm,
                *verify,
                *begin,
                *sumcheck,
                *prove,
                *hybrid_bytecode,
                *inner_bytecode,
                log_inv_rate,
                of_self,
                part@,
            ));
        }
        let none: Vec<(Vec<F>, P)> = Vec::new();
        let (proof, public_input) = prove_hybrid_recursion(
            h,
            vm,
            verify,
            begin,
            sumcheck,
            prove,
            if of_self {
                &part
            } else {
                &none
            },
            if of_self {
                &none
            } else {
                &part
            },
            hybrid_bytecode,
            inner_bytecode,
            log_inv_rate,
        );
        let c = (public_input, proof);
        assert(node(part@, c));
        next.push(c);
        rest = back;
    }
    next
}

/// Recurse over proofs of the inner circuit with the hybrid circuit, `fan_in` at a time:
/// first over the given proofs, and then over the proofs of the hybrid circuit until at
/// most one is left; returns what is left and the number of levels.
pub fn recurse_hybrid<
    H: Fn(Digest, Digest) -> Digest,
    B,
    P,
    S,
    V: Fn(&Bytecode<B>, &Vec<F>, &P) -> Result<Verified, String>,
    G: Fn(&Vec<Evaluation>) -> (S, EF),
    R: Fn(S, &Bytecode<B>, &Vec<Evaluation>, &Vec<EF>, EF) -> Reduction,
    Z: Fn(&Bytecode<B>, &Vec<F>, &Witness, usize) -> P,
>(
    h: &H,
    vm: &VmParams,
    verify: &V,
    begin: &G,
    sumcheck: &R,
    prove: &Z,
    inner_proofs: Vec<(Vec<F>, P)>,
    hybrid_bytecode: &Bytecode<B>,
    inner_bytecode: &Bytecode<B>,
    log_inv_rate: usize,
    fan_in: usize,
) -> (r: (Vec<(Vec<F>, P)>, usize))
    requires
        is_compression(*h),
        sizes_fit(hybrid_bytecode.log_size as int),
        sizes_fit(inner_bytecode.log_size as int),
        sustains_hybrid(
            *h,
            *vm,
            *verify,
            *begin,
            *sumcheck,
            *prove,
            *hybrid_bytecode,
            *inner_bytecode,
            log_inv_rate,
        ),
        fan_in >= 2,
        fan_in <= MAX_INNER_PROOFS || inner_proofs@.len() <= MAX_INNER_PROOFS,
        forall|i: int|
            0 <= i < inner_proofs@.len() ==> inner_acceptable(
                *vm,
                *verify,
                *inner_bytecode,
                #[trigger] inner_proofs@[i],
            ),
    ensures
        exists|layers: Seq<Seq<(Vec<F>, P)>>| #[trigger]
            is_chunk_tree(
                hybrid_parent(
                    *h,
                    *vm,
                    *verify,
                    *begin,
                    *sumcheck,
                    *prove,
                    *hybrid_bytecode,
                    *inner_bytecode,
                    log_inv_rate,
                    true,
                ),
                layers,
                fan_in as int,
            ) && is_chunk_layer(
                hybrid_parent(
                    *h,
                    *vm,
                    *verify,
                    *begin,
                    *sumcheck,
                    *prove,
                    *hybrid_bytecode,
                    *inner_bytecode,
                    log_inv_rate,
                    false,
                ),
                inner_proofs@,
                fan_in as int,
                layers[0],
            ) && layers.last() == r.0@ && layers.len() == r.1,
        r.0@.len() == (if inner_proofs@.len() == 0 {
            0int
        } else {
            1
        }),
{
    let ghost k = fan_in as int;
    let ghost all = inner_proofs@;
    let ghost node = hybrid_parent(
        *h,
        *vm,
        *verify,
        *begin,
        *sumcheck,
        *prove,
        *hybrid_bytecode,
        *inner_bytecode,
        log_inv_rate,
        true,
    );
    let total: usize = inner_proofs.len();
    assert forall|i: int| 0 <= i < inner_proofs@.len() implies child_of_hybrid(
        *vm,
        *verify,
        *hybrid_bytecode,
        *inner_bytecode,
        false,
        #[trigger] inner_proofs@[i],
    ) by {}
    let mut layer = recurse_hybrid_level(
        h,
        vm,
        verify,
        begin,
        sumcheck,
        prove,
        inner_proofs,
        false,
        hybrid_bytecode,
        inner_bytecode,
        log_inv_rate,
        fan_in,
    );
    proof {
        lemma_chunk_total(all.len() as int, k);
    }
    let mut levels: usize = 1;
    let ghost first = layer@;
    let ghost mut layers = seq![layer@];
    while layer.len() > 1
        invariant
            is_compression(*h),
            sizes_fit(hybrid_bytecode.log_size as int),
            sizes_fit(inner_bytecode.log_size as int),
            sustains_hybrid(
                *h,
                *vm,
                *verify,
                *begin,
                *sumcheck,
                *prove,
                *hybrid_bytecode,
                *inner_bytecode,
                log_inv_rate,
            ),
            fan_in >= 2,
            k == fan_in,
            total == all.len(),
            layer@.len() <= all.len(),
            layer@.len() == 0 <==> all.len() == 0,
            layer@.len() > 0 ==> levels + layer@.len() <= total + 1,
            levels >= 1,
            fan_in <= MAX_INNER_PROOFS || all.len() <= MAX_INNER_PROOFS,
            node == hybrid_parent(
                *h,
                *vm,
                *verify,
                *begin,
                *sumcheck,
                *prove,
                *hybrid_bytecode,
                *inner_bytecode,
                log_inv_rate,
                true,
            ),
            forall|i: int|
                0 <= i < layer@.len() ==> child_of_hybrid(
                    *vm,
                    *verify,
                    *hybrid_bytecode,
                    *inner_bytecode,
                    true,
                    #[trigger] layer@[i],
                ),
            is_chunk_tree(node, layers, k),
            layers[0] == first,
            layers.last() == layer@,
            layers.len() == levels,
        decreases layer@.len(),
    {
        let ghost before = layer@;
        let next = recurse_hybrid_level(
            h,
            vm,
            verify,
            begin,
            sumcheck,
            prove,
            layer,
            true,
            hybrid_bytecode,
            inner_bytecode,
            log_inv_rate,
            fan_in,
        );
        proof {
            lemma_chunk_total(before.len() as int, k);
            lemma_chunk_tree_push(node, layers, k, next@);
            layers = layers.push(next@);
        }
        layer = next;
        levels = levels + 1;
    }
    (layer, levels)
}

} // verus!
