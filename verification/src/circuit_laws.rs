//! What the numbers in the circuit templates mean.

use crate::circuit::{circuit_params, das_replacements, omega_inv_rounds, spotcheck_replacements};
use crate::commitment::{is_opening, lemma_commit_params};
use crate::field::{canonical, finv, fmul, fpow, lemma_finv, lemma_fpow_of_mul, F, P};
use crate::numeric::{lemma_pow2_log2, log2};
use crate::polynomial::domain_generator;
use crate::text::{bracketed, decimal};
use crate::text_laws::{lemma_decimal_reads_back, lemma_numbers_read_back, list_numbers, number};
use crate::types::Opening;
use crate::vm::VmParams;
use vstd::arithmetic::power2::{is_pow2, pow2};
use vstd::prelude::*;

verus! {

/// The number that stands under a key.
pub open spec fn number_at(r: Map<Seq<char>, Seq<char>>, key: Seq<char>) -> int {
    number(r[key])
}

/// The texts under the keys of the batch circuit's template.
proof fn lemma_das_entries(vm: VmParams, batch_size: int, n: int, epl: int, degree: int)
    ensures
        ({
            let r = das_replacements(vm, batch_size, n, epl, degree);
            &&& r["__NRPIS__"@] == decimal(vm.input_start as int)
            &&& r["__BATCH_SIZE__"@] == decimal(batch_size)
            &&& r["__CODEWORD_LEN__"@] == decimal(n)
            &&& r["__DIM__"@] == decimal(5)
            &&& r["__DIGEST_LEN__"@] == decimal(8)
            &&& r["__EPL__"@] == decimal(epl)
            &&& r["__NUM_LEAVES__"@] == decimal(n / epl)
            &&& r["__TREE_HEIGHT__"@] == decimal(log2(n / epl) as int)
            &&& r["__NUM_FOLD_ROUNDS__"@] == decimal(log2(degree) as int)
            &&& r["__N_CHUNKS__"@] == decimal(epl / 8)
            &&& r["__HALF__"@] == decimal(finv(2))
            &&& r["__OMEGA_INV_ROUNDS__"@] == bracketed(omega_inv_rounds(n, degree))
        }),
{
    reveal(das_replacements);
    reveal_strlit("__NRPIS__");
    reveal_strlit("__BATCH_SIZE__");
    reveal_strlit("__CODEWORD_LEN__");
    reveal_strlit("__DIM__");
    reveal_strlit("__DIGEST_LEN__");
    reveal_strlit("__EPL__");
    reveal_strlit("__NUM_LEAVES__");
    reveal_strlit("__TREE_HEIGHT__");
    reveal_strlit("__NUM_FOLD_ROUNDS__");
    reveal_strlit("__N_CHUNKS__");
    reveal_strlit("__HALF__");
    reveal_strlit("__OMEGA_INV_ROUNDS__");
    assert("__NRPIS__"@.len() == 9);
    assert("__BATCH_SIZE__"@.len() == 14);
    assert("__BATCH_SIZE__"@[2] == 'B');
    assert("__CODEWORD_LEN__"@.len() == 16);
    assert("__DIM__"@.len() == 7);
    assert("__DIM__"@[2] == 'D');
    assert("__DIGEST_LEN__"@.len() == 14);
    assert("__DIGEST_LEN__"@[2] == 'D');
    assert("__EPL__"@.len() == 7);
    assert("__EPL__"@[2] == 'E');
    assert("__NUM_LEAVES__"@.len() == 14);
    assert("__NUM_LEAVES__"@[2] == 'N');
    assert("__TREE_HEIGHT__"@.len() == 15);
    assert("__NUM_FOLD_ROUNDS__"@.len() == 19);
    assert("__N_CHUNKS__"@.len() == 12);
    assert("__HALF__"@.len() == 8);
    assert("__OMEGA_INV_ROUNDS__"@.len() == 20);
}

/// What the batch circuit is compiled with. The leaves partition the codeword and the chunks
/// a leaf; two to the height is the number of leaves, and two to the number of folding rounds
/// the degree; twice the constant for one half is one; and the constant of each round times
/// the generator of that round's domain is one.
pub proof fn lemma_batch_circuit_constants(
    vm: VmParams,
    batch_size: int,
    n: int,
    epl: int,
    degree: int,
)
    requires
        circuit_params(n, epl, degree),
        batch_size >= 0,
    ensures
        ({
            let r = das_replacements(vm, batch_size, n, epl, degree);
            let rounds = number_at(r, "__NUM_FOLD_ROUNDS__"@);
            let omegas = list_numbers(r["__OMEGA_INV_ROUNDS__"@]);
            &&& number_at(r, "__NRPIS__"@) == vm.input_start
            &&& number_at(r, "__BATCH_SIZE__"@) == batch_size
            &&& number_at(r, "__CODEWORD_LEN__"@) == n
            &&& number_at(r, "__EPL__"@) == epl
            &&& number_at(r, "__DIM__"@) == 5
            &&& number_at(r, "__DIGEST_LEN__"@) == 8
            &&& number_at(r, "__NUM_LEAVES__"@) * number_at(r, "__EPL__"@) == n
            &&& number_at(r, "__N_CHUNKS__"@) * number_at(r, "__DIGEST_LEN__"@) == epl
            &&& number_at(r, "__TREE_HEIGHT__"@) >= 0
            &&& pow2(number_at(r, "__TREE_HEIGHT__"@) as nat) == number_at(r, "__NUM_LEAVES__"@)
            &&& rounds >= 0
            &&& pow2(rounds as nat) == degree
            &&& (2 * number_at(r, "__HALF__"@)) % (P as int) == 1
            &&& canonical(number_at(r, "__HALF__"@))
            &&& omegas.len() == rounds
            &&& forall|k: int|
                0 <= k < rounds ==> canonical(#[trigger] omegas[k]) && (omegas[k] * fpow(
                    domain_generator(n),
                    pow2(k as nat),
                )) % (P as int) == 1
        }),
{
    let r = das_replacements(vm, batch_size, n, epl, degree);
    lemma_das_entries(vm, batch_size, n, epl, degree);
    lemma_commit_params(n, epl);
    lemma_pow2_log2(n / epl);
    lemma_pow2_log2(degree);
    crate::fold::lemma_generator_nonzero(n);
    let (h, g) = (finv(2), domain_generator(n));
    lemma_finv(2);
    lemma_finv(g);
    lemma_decimal_reads_back(vm.input_start as int);
    lemma_decimal_reads_back(batch_size);
    lemma_decimal_reads_back(n);
    lemma_decimal_reads_back(epl);
    lemma_decimal_reads_back(5);
    lemma_decimal_reads_back(8);
    lemma_decimal_reads_back(n / epl);
    lemma_decimal_reads_back(log2(n / epl) as int);
    lemma_decimal_reads_back(log2(degree) as int);
    lemma_decimal_reads_back(epl / 8);
    lemma_decimal_reads_back(h);
    assert((n / epl) * epl == n) by (nonlinear_arith)
        requires
            n == epl * (n / epl),
    ;
    assert((2 * h) % (P as int) == 1) by {
        reveal(fmul);
        assert(2 * h == h * 2);
    }
    let v = Seq::new(log2(degree), |k: int| fpow(finv(g), pow2(k as nat)));
    assert forall|k: int| 0 <= k < v.len() implies canonical(#[trigger] v[k]) && (v[k] * fpow(
        g,
        pow2(k as nat),
    )) % (P as int) == 1 by {
        let e = pow2(k as nat);
        crate::field::lemma_fpow_range(finv(g), e);
        lemma_fpow_of_mul(finv(g), g, e);
        crate::field::lemma_fpow_base_one(e);
        reveal(fmul);
    }
    lemma_numbers_read_back(omega_inv_rounds(n, degree), v);
}

/// The height that the batch circuit is compiled with is that of the commitment's tree: it is
/// the number of siblings in an opening of a codeword of the same length with leaves of the
/// same size.
pub proof fn lemma_tree_height_is_path_length(
    vm: VmParams,
    batch_size: int,
    epl: int,
    degree: int,
    o: Opening,
    evals: Seq<int>,
    tree: Seq<Seq<Seq<int>>>,
    position: int,
)
    requires
        is_opening(o, evals, tree, position, epl),
    ensures
        number_at(
            das_replacements(vm, batch_size, evals.len() as int, epl, degree),
            "__TREE_HEIGHT__"@,
        ) == o.siblings@.len(),
{
    lemma_das_entries(vm, batch_size, evals.len() as int, epl, degree);
    lemma_decimal_reads_back(log2(evals.len() as int / epl) as int);
}

/// The texts under the further keys of the spot-check circuit's template; those of the batch
/// circuit stay.
proof fn lemma_spotcheck_entries(
    vm: VmParams,
    batch_size: int,
    n: int,
    epl: int,
    degree: int,
    checks: int,
)
    ensures
        ({
            let log_n = log2(n) as int;
            let per_element = 31int / log_n;
            let per_hash = per_element * 8;
            let r = spotcheck_replacements(vm, batch_size, n, epl, degree, checks);
            &&& r["__NUM_SPOT_CHECKS__"@] == decimal(checks)
            &&& r["__LOG_CODEWORD_LEN__"@] == decimal(log_n)
            &&& r["__POSITIONS_PER_ELEMENT__"@] == decimal(per_element)
            &&& r["__NUM_RAND_ELEMENTS__"@] == decimal((checks + per_element - 1) / per_element)
            &&& r["__NUM_FULL_RAND_ELEMENTS__"@] == decimal(checks / per_element)
            &&& r["__REMAINDER_POSITIONS__"@] == decimal(checks % per_element)
            &&& r["__NUM_HASH_ROUNDS__"@] == decimal((checks + per_hash - 1) / per_hash)
            &&& r["__N_RLC_CHUNKS__"@] == decimal((n * 5 + 8 - 1) / 8)
        }),
{
    reveal_strlit("__NUM_SPOT_CHECKS__");
    reveal_strlit("__LOG_CODEWORD_LEN__");
    reveal_strlit("__POSITIONS_PER_ELEMENT__");
    reveal_strlit("__NUM_RAND_ELEMENTS__");
    reveal_strlit("__NUM_FULL_RAND_ELEMENTS__");
    reveal_strlit("__REMAINDER_POSITIONS__");
    reveal_strlit("__NUM_HASH_ROUNDS__");
    reveal_strlit("__N_RLC_CHUNKS__");
    assert("__NUM_SPOT_CHECKS__"@.len() == 19);
    assert("__NUM_SPOT_CHECKS__"@[6] == 'S');
    assert("__LOG_CODEWORD_LEN__"@.len() == 20);
    assert("__POSITIONS_PER_ELEMENT__"@.len() == 25);
    assert("__NUM_RAND_ELEMENTS__"@.len() == 21);
    assert("__NUM_FULL_RAND_ELEMENTS__"@.len() == 26);
    assert("__REMAINDER_POSITIONS__"@.len() == 23);
    assert("__NUM_HASH_ROUNDS__"@.len() == 19);
    assert("__NUM_HASH_ROUNDS__"@[6] == 'H');
    assert("__N_RLC_CHUNKS__"@.len() == 16);
}

/// The spot-check circuit takes the constants of the batch circuit as they are.
pub proof fn lemma_spotcheck_keeps_batch_constants(
    vm: VmParams,
    batch_size: int,
    n: int,
    epl: int,
    degree: int,
    checks: int,
)
    ensures
        ({
            let r = spotcheck_replacements(vm, batch_size, n, epl, degree, checks);
            let base = das_replacements(vm, batch_size, n, epl, degree);
            &&& r["__NRPIS__"@] == base["__NRPIS__"@]
            &&& r["__BATCH_SIZE__"@] == base["__BATCH_SIZE__"@]
            &&& r["__CODEWORD_LEN__"@] == base["__CODEWORD_LEN__"@]
            &&& r["__DIM__"@] == base["__DIM__"@]
            &&& r["__DIGEST_LEN__"@] == base["__DIGEST_LEN__"@]
            &&& r["__EPL__"@] == base["__EPL__"@]
            &&& r["__NUM_LEAVES__"@] == base["__NUM_LEAVES__"@]
            &&& r["__TREE_HEIGHT__"@] == base["__TREE_HEIGHT__"@]
            &&& r["__NUM_FOLD_ROUNDS__"@] == base["__NUM_FOLD_ROUNDS__"@]
            &&& r["__N_CHUNKS__"@] == base["__N_CHUNKS__"@]
            &&& r["__HALF__"@] == base["__HALF__"@]
            &&& r["__OMEGA_INV_ROUNDS__"@] == base["__OMEGA_INV_ROUNDS__"@]
        }),
{
    reveal_strlit("__NRPIS__");
    reveal_strlit("__BATCH_SIZE__");
    reveal_strlit("__CODEWORD_LEN__");
    reveal_strlit("__DIM__");
    reveal_strlit("__DIGEST_LEN__");
    reveal_strlit("__EPL__");
    reveal_strlit("__NUM_LEAVES__");
    reveal_strlit("__TREE_HEIGHT__");
    reveal_strlit("__NUM_FOLD_ROUNDS__");
    reveal_strlit("__N_CHUNKS__");
    reveal_strlit("__HALF__");
    reveal_strlit("__OMEGA_INV_ROUNDS__");
    reveal_strlit("__NUM_SPOT_CHECKS__");
    reveal_strlit("__LOG_CODEWORD_LEN__");
    reveal_strlit("__POSITIONS_PER_ELEMENT__");
    reveal_strlit("__NUM_RAND_ELEMENTS__");
    reveal_strlit("__NUM_FULL_RAND_ELEMENTS__");
    reveal_strlit("__REMAINDER_POSITIONS__");
    reveal_strlit("__NUM_HASH_ROUNDS__");
    reveal_strlit("__N_RLC_CHUNKS__");
    assert("__NRPIS__"@.len() == 9);
    assert("__BATCH_SIZE__"@.len() == 14);
    assert("__BATCH_SIZE__"@[2] == 'B');
    assert("__CODEWORD_LEN__"@.len() == 16);
    assert("__CODEWORD_LEN__"@[2] == 'C');
    assert("__DIM__"@.len() == 7);
    assert("__DIM__"@[2] == 'D');
    assert("__DIGEST_LEN__"@.len() == 14);
    assert("__DIGEST_LEN__"@[2] == 'D');
    assert("__EPL__"@.len() == 7);
    assert("__EPL__"@[2] == 'E');
    assert("__NUM_LEAVES__"@.len() == 14);
    assert("__NUM_LEAVES__"@[2] == 'N');
    assert("__TREE_HEIGHT__"@.len() == 15);
    assert("__NUM_FOLD_ROUNDS__"@.len() == 19);
    assert("__NUM_FOLD_ROUNDS__"@[6] == 'F');
    assert("__N_CHUNKS__"@.len() == 12);
    assert("__HALF__"@.len() == 8);
    assert("__OMEGA_INV_ROUNDS__"@.len() == 20);
    assert("__OMEGA_INV_ROUNDS__"@[2] == 'O');
    assert("__NUM_SPOT_CHECKS__"@.len() == 19);
    assert("__NUM_SPOT_CHECKS__"@[6] == 'S');
    assert("__LOG_CODEWORD_LEN__"@.len() == 20);
    assert("__LOG_CODEWORD_LEN__"@[2] == 'L');
    assert("__POSITIONS_PER_ELEMENT__"@.len() == 25);
    assert("__NUM_RAND_ELEMENTS__"@.len() == 21);
    assert("__NUM_FULL_RAND_ELEMENTS__"@.len() == 26);
    assert("__REMAINDER_POSITIONS__"@.len() == 23);
    assert("__NUM_HASH_ROUNDS__"@.len() == 19);
    assert("__NUM_HASH_ROUNDS__"@[6] == 'H');
    assert("__N_RLC_CHUNKS__"@.len() == 16);
    assert("__N_RLC_CHUNKS__"@[2] == 'N');
}

/// What the spot-check circuit is compiled with besides. Two to the logarithm is the codeword
/// length; an element gives as many positions as fit its bits; the whole elements and the rest
/// make up the checks; as many elements, and hashes of eight elements, are drawn as the checks
/// need and no more; and the chunks have room for the combination and for no chunk more.
pub proof fn lemma_spotcheck_constants(
    vm: VmParams,
    batch_size: int,
    n: int,
    epl: int,
    degree: int,
    checks: int,
)
    requires
        circuit_params(n, epl, degree),
        checks > 0,
    ensures
        ({
            let r = spotcheck_replacements(vm, batch_size, n, epl, degree, checks);
            let log_n = number_at(r, "__LOG_CODEWORD_LEN__"@);
            let per = number_at(r, "__POSITIONS_PER_ELEMENT__"@);
            let drawn = number_at(r, "__NUM_RAND_ELEMENTS__"@);
            let rounds = number_at(r, "__NUM_HASH_ROUNDS__"@);
            let chunks = number_at(r, "__N_RLC_CHUNKS__"@);
            let rest = number_at(r, "__REMAINDER_POSITIONS__"@);
            &&& number_at(r, "__NUM_SPOT_CHECKS__"@) == checks
            &&& log_n > 0
            &&& pow2(log_n as nat) == n
            &&& per * log_n <= 31 < (per + 1) * log_n
            &&& number_at(r, "__NUM_FULL_RAND_ELEMENTS__"@) * per + rest == checks
            &&& 0 <= rest < per
            &&& (drawn - 1) * per < checks <= drawn * per
            &&& (rounds - 1) * (8 * per) < checks <= rounds * (8 * per)
            &&& 8 * (chunks - 1) < 5 * n <= 8 * chunks
        }),
{
    lemma_spotcheck_entries(vm, batch_size, n, epl, degree, checks);
    let l = log2(n) as int;
    let p = 31int / l;
    lemma_pow2_log2(n);
    lemma_pow2_log2(degree);
    crate::numeric::lemma_log2_half(n);
    vstd::arithmetic::div_mod::lemma_fundamental_div_mod(31, l);
    assert(p >= 1 && p * l <= 31 < (p + 1) * l) by (nonlinear_arith)
        requires
            31 == l * p + 31int % l,
            0 <= 31int % l < l,
            1 <= l <= 24,
    ;
    let q = p * 8;
    vstd::arithmetic::div_mod::lemma_fundamental_div_mod(checks, p);
    lemma_ceiling(checks, p);
    lemma_ceiling(checks, q);
    lemma_ceiling(n * 5, 8);
    assert((checks / p) * p == p * (checks / p)) by (nonlinear_arith);
    let (a, b) = ((checks + p - 1) / p, (checks + q - 1) / q);
    assert(checks / p >= 0) by (nonlinear_arith)
        requires
            checks > 0,
            p >= 1,
    ;
    lemma_decimal_reads_back(checks);
    lemma_decimal_reads_back(l);
    lemma_decimal_reads_back(p);
    lemma_decimal_reads_back(a);
    lemma_decimal_reads_back(checks / p);
    lemma_decimal_reads_back(checks % p);
    lemma_decimal_reads_back(b);
    lemma_decimal_reads_back((n * 5 + 8 - 1) / 8);
    assert((b - 1) * q == (b - 1) * (8 * p) && b * q == b * (8 * p)) by (nonlinear_arith)
        requires
            q == p * 8,
    ;
}

/// The quotient rounded up.
proof fn lemma_ceiling(x: int, d: int)
    requires
        x > 0,
        d > 0,
    ensures
        ((x + d - 1) / d - 1) * d < x <= ((x + d - 1) / d) * d,
        (x + d - 1) / d > 0,
{
    let t = x + d - 1;
    let q = t / d;
    vstd::arithmetic::div_mod::lemma_fundamental_div_mod(t, d);
    assert((q - 1) * d < x <= q * d && q > 0) by (nonlinear_arith)
        requires
            t == d * q + t % d,
            0 <= t % d < d,
            t == x + d - 1,
            x > 0,
            d > 0,
    ;
}

} // verus!
