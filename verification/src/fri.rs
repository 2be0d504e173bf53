//! FRI folding on evaluation vectors.
//!
//! All folding operates on evaluation vectors. On a multiplicative domain the even and
//! odd parts of a polynomial are read off the evaluations at `w^i` and `-w^i`, and the
//! folded evaluations are a linear combination of the two with the twiddle factors
//! divided out.

use crate::code::{
    epoly, fold_all, fold_step, fold_value, in_code, inv_twiddle, is_encoding,
    lemma_element_nonzero, lemma_fmul_nonzero, lemma_fold_all_in_code, lemma_fold_constant,
    lemma_fold_step_wf, lemma_half_domain, lemma_in_code_widen, lemma_one_coefficient_constant,
    lemma_unfold_in_code,
};
use crate::ext::{
    eadd, embed, emul, epow, eseq, esub, eswf, ewf, lemma_emul_assoc, lemma_emul_comm,
    lemma_emul_embed, lemma_ewf_ops, Ext, EF,
};
use crate::field::{
    canonical, finv, fmul, fpow, lemma_f_range, lemma_finv, lemma_finv_unique, lemma_fmul_comm,
    lemma_fmul_one, lemma_fmul_swap, lemma_fpow_of_mul, lemma_fpow_range, F,
};
use crate::numeric::{ilog2, lemma_log2_half, lemma_pow2_log2, log2};
use crate::polynomial::{domain_element, domain_generator, domain_size};
use crate::slices::copy_slice;
use vstd::arithmetic::power2::pow2;
use vstd::prelude::*;

verus! {

/// The two values left after folding `v` to size two, with one challenge for each
/// round, are equal.
pub open spec fn rs_check(v: Seq<Ext>, alphas: Seq<Ext>) -> bool {
    let rounds = log2(v.len() as int) - 1;
    let f = fold_all(v, alphas.take(rounds), domain_generator(v.len() as int));
    f[0] == f[1]
}

/// What one round gives for a pair of evaluations when the twiddle factor is an
/// arbitrary extension element.
pub open spec fn round_value(a: Ext, b: Ext, alpha: Ext, tw: Ext) -> Ext {
    eadd(emul(eadd(a, b), embed(finv(2))), emul(alpha, emul(esub(a, b), tw)))
}

/// With an embedded twiddle factor `round_value` is `fold_value`.
pub proof fn lemma_round_value(a: Ext, b: Ext, alpha: Ext, t: int)
    requires
        canonical(t),
    ensures
        round_value(a, b, alpha, embed(t)) == fold_value(a, b, alpha, t),
{
    lemma_ewf_ops(a, b, 0);
    lemma_finv(2);
    lemma_emul_comm(eadd(a, b), embed(finv(2)));
    lemma_emul_embed(finv(2), eadd(a, b));
    lemma_emul_comm(esub(a, b), embed(t));
    lemma_emul_embed(t, esub(a, b));
}

/// Perform one round of FRI folding on an evaluation vector.
///
/// `evals[i]` and `evals[i + n/2]` are the values at `w^i` and `-w^i`, and
/// `inv_twiddles[i]` is `1 / (2 w^i)`. The result holds the even part plus `alpha`
/// times the odd part.
pub fn fri_fold_round(evals: &[EF], alpha: EF, inv_twiddles: &[EF]) -> (r: Vec<EF>)
    requires
        evals@.len() >= 2,
        evals@.len() % 2 == 0,
        inv_twiddles@.len() == evals@.len() / 2,
    ensures
        r@.len() == evals@.len() / 2,
        forall|i: int|
            0 <= i < r@.len() ==> #[trigger] r@[i]@ == round_value(
                evals@[i]@,
                evals@[i + r@.len()]@,
                alpha@,
                inv_twiddles@[i]@,
            ),
{
    let half: usize = evals.len() / 2;
    let two_inv = EF::from(F::two().inverse());
    let mut folded: Vec<EF> = Vec::with_capacity(half);
    let mut i: usize = 0;
    while i < half
        invariant
            i <= half,
            evals@.len() == 2 * half,
            inv_twiddles@.len() == half,
            two_inv@ == embed(finv(2)),
            folded@.len() == i,
            forall|j: int|
                0 <= j < i ==> #[trigger] folded@[j]@ == round_value(
                    evals@[j]@,
                    evals@[j + half]@,
                    alpha@,
                    inv_twiddles@[j]@,
                ),
        decreases half - i,
    {
        let p_pos = evals[i];
        let p_neg = evals[i + half];
        let p_even = p_pos.add(p_neg).mul(two_inv);
        let p_odd = p_pos.sub(p_neg).mul(inv_twiddles[i]);
        folded.push(p_even.add(alpha.mul(p_odd)));
        i = i + 1;
    }
    folded
}

/// The inverse twiddle factors `1 / (2 w^i)` for the first `half` powers of
/// `domain_gen`.
pub fn compute_inv_twiddles(domain_gen: F, half: usize) -> (r: Vec<EF>)
    requires
        half <= 1 || domain_gen@ != 0,
    ensures
        r@.len() == half,
        forall|i: int|
            0 <= i < half ==> #[trigger] r@[i]@ == embed(inv_twiddle(domain_gen@, i)),
{
    let two = F::two();
    let mut twiddles: Vec<EF> = Vec::with_capacity(half);
    let mut omega_i = F::one();
    let mut i: usize = 0;
    while i < half
        invariant
            i <= half,
            half <= 1 || domain_gen@ != 0,
            two@ == 2,
            omega_i@ == fpow(domain_gen@, i as nat),
            twiddles@.len() == i,
            forall|j: int|
                0 <= j < i ==> #[trigger] twiddles@[j]@ == embed(inv_twiddle(domain_gen@, j)),
        decreases half - i,
    {
        proof {
            domain_gen.lemma_view_range();
            omega_i.lemma_view_range();
            if i > 0 {
                lemma_element_nonzero(domain_gen@, i as nat);
            }
            lemma_fmul_nonzero(2, omega_i@);
            lemma_fmul_comm(omega_i@, domain_gen@);
        }
        let tw = two.mul(omega_i);
        twiddles.push(EF::from(tw.inverse()));
        omega_i = omega_i.mul(domain_gen);
        i = i + 1;
    }
    twiddles
}

/// One standard round on the domain of the vector's size.
fn fold_once(current: &[EF], alpha: EF, current_gen: F) -> (r: Vec<EF>)
    requires
        domain_size(current@.len() as int),
        current@.len() >= 2,
        current_gen@ == domain_generator(current@.len() as int),
    ensures
        eseq(r@) == fold_step(eseq(current@), alpha@, current_gen@),
{
    proof {
        lemma_half_domain(current@.len() as int);
    }
    let half: usize = current.len() / 2;
    let inv_twiddles = compute_inv_twiddles(current_gen, half);
    let next = fri_fold_round(current, alpha, inv_twiddles.as_slice());
    proof {
        let target = fold_step(eseq(current@), alpha@, current_gen@);
        assert forall|i: int| 0 <= i < half implies #[trigger] eseq(next@)[i] == target[i] by {
            crate::code::lemma_element_pair(current@.len() as int, i);
            let t = inv_twiddle(current_gen@, i);
            let x = fmul(2, fpow(current_gen@, i as nat));
            lemma_f_range(2, fpow(current_gen@, i as nat));
            lemma_fmul_nonzero(2, fpow(current_gen@, i as nat));
            lemma_finv(x);
            lemma_round_value(current@[i]@, current@[i + half]@, alpha@, t);
        }
        assert(eseq(next@) =~= target);
    }
    next
}

/// A prefix of rounds: what remains to be folded after `round` rounds gives the whole.
proof fn lemma_fold_next(v: Seq<Ext>, alphas: Seq<Ext>, g: int, round: int)
    requires
        0 <= round < alphas.len(),
    ensures
        fold_all(v, alphas.skip(round), g) == fold_all(
            fold_step(v, alphas[round], g),
            alphas.skip(round + 1),
            fmul(g, g),
        ),
{
    assert(alphas.skip(round).drop_first() =~= alphas.skip(round + 1));
}

/// Perform complete FRI folding: halve the evaluation vector until a single constant
/// remains. Takes one challenge for each halving.
pub fn fri_fold_evaluations(evals: &[EF], challenges: &[EF]) -> (r: EF)
    requires
        domain_size(evals@.len() as int),
        challenges@.len() == log2(evals@.len() as int),
    ensures
        fold_all(eseq(evals@), eseq(challenges@), domain_generator(evals@.len() as int)) == seq![
            r@,
        ],
{
    let n: usize = evals.len();
    proof {
        lemma_pow2_log2(n as int);
    }
    let bits: usize = ilog2(n);
    let mut current: Vec<EF> = copy_slice(evals);
    let mut current_gen = F::two_adic_generator(bits);
    let mut round: usize = 0;
    let ghost alphas = eseq(challenges@);
    assert(alphas.skip(0) =~= alphas);
    while round < challenges.len()
        invariant
            round <= challenges@.len() == bits,
            alphas == eseq(challenges@),
            domain_size(current@.len() as int),
            log2(current@.len() as int) == bits - round,
            current_gen@ == domain_generator(current@.len() as int),
            fold_all(eseq(current@), alphas.skip(round as int), current_gen@) == fold_all(
                eseq(evals@),
                alphas,
                domain_generator(evals@.len() as int),
            ),
        decreases challenges@.len() - round,
    {
        proof {
            lemma_pow2_log2(current@.len() as int);
            lemma_half_domain(current@.len() as int);
            lemma_log2_half(current@.len() as int);
            lemma_fold_next(eseq(current@), alphas, current_gen@, round as int);
        }
        let next = fold_once(current.as_slice(), challenges[round], current_gen);
        assert(eseq(next@).len() == next@.len());
        current = next;
        current_gen = current_gen.mul(current_gen);
        round = round + 1;
    }
    proof {
        lemma_pow2_log2(current@.len() as int);
        vstd::arithmetic::power2::lemma2_to64();
        assert(eseq(current@) =~= seq![current@[0]@]);
    }
    current[0]
}

/// Check whether a vector is of degree below half its length by folding it to size two
/// and comparing the two remaining values. Uses the first `log2(n) - 1` challenges.
pub fn check_rs_membership(evals: &[EF], challenges: &[EF]) -> (r: bool)
    requires
        domain_size(evals@.len() as int),
        evals@.len() >= 2,
        challenges@.len() >= log2(evals@.len() as int) - 1,
    ensures
        r == rs_check(eseq(evals@), eseq(challenges@)),
{
    let n: usize = evals.len();
    proof {
        lemma_log2_half(n as int);
    }
    let bits: usize = ilog2(n);
    let num_rounds: usize = bits - 1;
    let mut current: Vec<EF> = copy_slice(evals);
    let mut current_gen = F::two_adic_generator(bits);
    let mut round: usize = 0;
    let ghost alphas = eseq(challenges@).take(num_rounds as int);
    assert(alphas.skip(0) =~= alphas);
    while round < num_rounds
        invariant
            round <= num_rounds == bits - 1,
            num_rounds <= challenges@.len(),
            alphas == eseq(challenges@).take(num_rounds as int),
            domain_size(current@.len() as int),
            log2(current@.len() as int) == bits - round,
            current_gen@ == domain_generator(current@.len() as int),
            fold_all(eseq(current@), alphas.skip(round as int), current_gen@) == fold_all(
                eseq(evals@),
                alphas,
                domain_generator(evals@.len() as int),
            ),
        decreases num_rounds - round,
    {
        proof {
            lemma_pow2_log2(current@.len() as int);
            lemma_half_domain(current@.len() as int);
            lemma_log2_half(current@.len() as int);
            lemma_fold_next(eseq(current@), alphas, current_gen@, round as int);
        }
        let next = fold_once(current.as_slice(), challenges[round], current_gen);
        assert(eseq(next@).len() == next@.len());
        current = next;
        current_gen = current_gen.mul(current_gen);
        round = round + 1;
    }
    proof {
        lemma_pow2_log2(current@.len() as int);
        vstd::arithmetic::power2::lemma2_to64();
        assert(eseq(current@)[0] == current@[0]@ && eseq(current@)[1] == current@[1]@);
    }
    current[0] == current[1]
}

/// Powers of an embedded element are embedded.
pub proof fn lemma_epow_embed(s: int, i: nat)
    requires
        canonical(s),
    ensures
        epow(embed(s), i) == embed(fpow(s, i)),
        canonical(fpow(s, i)),
    decreases i,
{
    lemma_fpow_range(s, i);
    if i > 0 {
        let j = (i - 1) as nat;
        lemma_epow_embed(s, j);
        lemma_emul_embed(s, embed(fpow(s, j)));
        crate::ext::lemma_embed_hom(s, fpow(s, j));
    }
}

/// `1 / (2 g^i)` is one half times the `i`-th power of `1 / g`.
pub proof fn lemma_inv_twiddle(g: int, i: nat)
    requires
        0 < g < crate::field::P,
    ensures
        inv_twiddle(g, i as int) == fmul(finv(2), fpow(finv(g), i)),
        canonical(inv_twiddle(g, i as int)),
        canonical(finv(g)),
        canonical(finv(2)),
        emul(embed(finv(2)), epow(embed(finv(g)), i)) == embed(inv_twiddle(g, i as int)),
{
    let (h, u) = (finv(2), finv(g));
    lemma_finv(2);
    lemma_finv(g);
    let t = fmul(h, fpow(u, i));
    lemma_f_range(h, fpow(u, i));
    lemma_fmul_swap(h, fpow(u, i), 2, fpow(g, i));
    lemma_fpow_of_mul(u, g, i);
    crate::field::lemma_fpow_base_one(i);
    lemma_fmul_one(1);
    lemma_finv_unique(fmul(2, fpow(g, i)), t);
    lemma_epow_embed(u, i);
    lemma_emul_embed(h, embed(fpow(u, i)));
    crate::ext::lemma_embed_hom(h, fpow(u, i));
}

/// Perform one round of FRI folding with the inverse twiddles derived on the fly:
/// the first is one half, and each next one is the last times `omega_inv`.
pub fn fri_fold_round_iterative(evals: &[EF], alpha: EF, omega_inv: EF) -> (r: Vec<EF>)
    requires
        evals@.len() >= 2,
        evals@.len() % 2 == 0,
    ensures
        r@.len() == evals@.len() / 2,
        forall|i: int|
            0 <= i < r@.len() ==> #[trigger] r@[i]@ == round_value(
                evals@[i]@,
                evals@[i + r@.len()]@,
                alpha@,
                emul(embed(finv(2)), epow(omega_inv@, i as nat)),
            ),
{
    let half: usize = evals.len() / 2;
    let half_val = EF::from(F::two().inverse());
    let mut inv_tw = half_val;
    let mut folded: Vec<EF> = Vec::with_capacity(half);
    let mut i: usize = 0;
    let ghost h = embed(finv(2));
    proof {
        half_val.lemma_view_wf();
        crate::ext::lemma_emul_one(h);
    }
    while i < half
        invariant
            i <= half,
            evals@.len() == 2 * half,
            h == embed(finv(2)),
            half_val@ == h,
            inv_tw@ == emul(h, epow(omega_inv@, i as nat)),
            folded@.len() == i,
            forall|j: int|
                0 <= j < i ==> #[trigger] folded@[j]@ == round_value(
                    evals@[j]@,
                    evals@[j + half]@,
                    alpha@,
                    emul(h, epow(omega_inv@, j as nat)),
                ),
        decreases half - i,
    {
        let p_pos = evals[i];
        let p_neg = evals[i + half];
        let p_sum = p_pos.add(p_neg);
        let p_diff = p_pos.sub(p_neg);
        let p_even = half_val.mul(p_sum);
        let p_odd = inv_tw.mul(p_diff);
        proof {
            half_val.lemma_view_wf();
            p_sum.lemma_view_wf();
            p_diff.lemma_view_wf();
            inv_tw.lemma_view_wf();
            omega_inv.lemma_view_wf();
            lemma_emul_comm(half_val@, p_sum@);
            lemma_emul_comm(inv_tw@, p_diff@);
            let w = epow(omega_inv@, i as nat);
            crate::ext::lemma_epow_wf(omega_inv@, i as nat);
            lemma_emul_assoc(h, w, omega_inv@);
            lemma_emul_comm(w, omega_inv@);
        }
        folded.push(p_even.add(alpha.mul(p_odd)));
        inv_tw = inv_tw.mul(omega_inv);
        i = i + 1;
    }
    folded
}

/// One round with twiddles derived from the inverse of the domain's generator.
pub fn fold_once_iterative(current: &[EF], alpha: EF, omega_inv: F) -> (r: Vec<EF>)
    requires
        domain_size(current@.len() as int),
        current@.len() >= 2,
        omega_inv@ == finv(domain_generator(current@.len() as int)),
    ensures
        eseq(r@) == fold_step(eseq(current@), alpha@, domain_generator(current@.len() as int)),
{
    let ghost g = domain_generator(current@.len() as int);
    proof {
        lemma_half_domain(current@.len() as int);
    }
    let next = fri_fold_round_iterative(current, alpha, EF::from(omega_inv));
    proof {
        let half = (current@.len() / 2) as int;
        let target = fold_step(eseq(current@), alpha@, g);
        assert forall|i: int| 0 <= i < half implies #[trigger] eseq(next@)[i] == target[i] by {
            lemma_inv_twiddle(g, i as nat);
            lemma_round_value(current@[i]@, current@[i + half]@, alpha@, inv_twiddle(g, i));
        }
        assert(eseq(next@) =~= target);
    }
    next
}

/// Check whether a vector is of degree below half its length, folding with twiddle
/// factors computed on the fly from the inverse of the domain's generator. Gives the
/// answer of `check_rs_membership`.
pub fn check_rs_membership_iterative(evals: &[EF], challenges: &[EF]) -> (r: bool)
    requires
        domain_size(evals@.len() as int),
        evals@.len() >= 2,
        challenges@.len() >= log2(evals@.len() as int) - 1,
    ensures
        r == rs_check(eseq(evals@), eseq(challenges@)),
{
    let n: usize = evals.len();
    proof {
        lemma_log2_half(n as int);
    }
    let bits: usize = ilog2(n);
    let num_rounds: usize = bits - 1;
    let mut current: Vec<EF> = copy_slice(evals);
    let mut domain_gen = F::two_adic_generator(bits);
    let mut round: usize = 0;
    let ghost alphas = eseq(challenges@).take(num_rounds as int);
    assert(alphas.skip(0) =~= alphas);
    while round < num_rounds
        invariant
            round <= num_rounds == bits - 1,
            num_rounds <= challenges@.len(),
            alphas == eseq(challenges@).take(num_rounds as int),
            domain_size(current@.len() as int),
            log2(current@.len() as int) == bits - round,
            domain_gen@ == domain_generator(current@.len() as int),
            fold_all(eseq(current@), alphas.skip(round as int), domain_gen@) == fold_all(
                eseq(evals@),
                alphas,
                domain_generator(evals@.len() as int),
            ),
        decreases num_rounds - round,
    {
        proof {
            lemma_pow2_log2(current@.len() as int);
            lemma_half_domain(current@.len() as int);
            lemma_log2_half(current@.len() as int);
            lemma_fold_next(eseq(current@), alphas, domain_gen@, round as int);
        }
        let omega_inv = domain_gen.inverse();
        let next = fold_once_iterative(current.as_slice(), challenges[round], omega_inv);
        assert(eseq(next@).len() == next@.len());
        current = next;
        domain_gen = domain_gen.mul(domain_gen);
        round = round + 1;
    }
    proof {
        lemma_pow2_log2(current@.len() as int);
        vstd::arithmetic::power2::lemma2_to64();
        assert(eseq(current@)[0] == current@[0]@ && eseq(current@)[1] == current@[1]@);
    }
    current[0] == current[1]
}

/// The check accepts every codeword: the values of a polynomial with at most half as
/// many coefficients as there are values pass, whatever the challenges.
pub proof fn lemma_codeword_accepted(v: Seq<Ext>, d: nat, alphas: Seq<Ext>)
    requires
        domain_size(v.len() as int),
        v.len() >= 2,
        d <= v.len() / 2,
        in_code(v, v.len() as int, d),
        alphas.len() >= log2(v.len() as int) - 1,
    ensures
        rs_check(v, alphas),
{
    let n = v.len() as int;
    lemma_log2_half(n);
    lemma_pow2_log2(n / 2);
    lemma_in_code_widen(v, n, d, (n / 2) as nat);
    let used = alphas.take(log2(n) - 1);
    vstd::arithmetic::power2::lemma2_to64();
    assert(pow2(used.len()) * 1 == n / 2);
    lemma_fold_all_in_code(v, n, 1, used);
    lemma_one_coefficient_constant(fold_all(v, used, domain_generator(n)), 2);
}

/// The check accepts a vector under every choice of challenges only if the vector is a
/// codeword.
pub proof fn lemma_accepted_is_codeword(v: Seq<Ext>)
    requires
        domain_size(v.len() as int),
        v.len() >= 2,
        eswf(v),
        forall|alphas: Seq<Ext>|
            alphas.len() == log2(v.len() as int) - 1 && eswf(alphas) ==> #[trigger] rs_check(
                v,
                alphas,
            ),
    ensures
        in_code(v, v.len() as int, v.len() / 2),
    decreases v.len(),
{
    let n = v.len() as int;
    let g = domain_generator(n);
    lemma_log2_half(n);
    lemma_pow2_log2(n);
    lemma_half_domain(n);
    if n == 2 {
        assert(log2(1) == 0);
        let none = Seq::<Ext>::empty();
        assert(rs_check(v, none));
        assert(none.take(0) =~= none);
        assert(v[0] == v[1]);
        let c = seq![v[0]];
        assert forall|i: int| 0 <= i < 2 implies #[trigger] v[i] == epoly(
            c,
            domain_element(2, i),
        ) by {
            let x = domain_element(2, i);
            assert(c.drop_first().len() == 0);
            assert(epoly(c.drop_first(), x) == embed(0));
            crate::ext::lemma_escale_embed_zero(x);
            crate::ext::lemma_eadd_zero(v[0]);
        }
        assert(is_encoding(v, c, 2));
    } else {
        assert(n >= 4) by {
            assert(n / 2 >= 2) by {
                lemma_log2_half(n);
            }
        }
        lemma_fold_accepted(v, embed(0));
        lemma_fold_accepted(v, embed(1));
        let f0 = fold_step(v, embed(0), g);
        let f1 = fold_step(v, embed(1), g);
        lemma_accepted_is_codeword(f0);
        lemma_accepted_is_codeword(f1);
        lemma_log2_half(n / 2);
        lemma_unfold_in_code(v, n, (n / 4) as nat);
    }
}

/// If a vector passes under every choice of challenges, so does its folding.
proof fn lemma_fold_accepted(v: Seq<Ext>, alpha: Ext)
    requires
        domain_size(v.len() as int),
        v.len() >= 4,
        ewf(alpha),
        forall|alphas: Seq<Ext>|
            alphas.len() == log2(v.len() as int) - 1 && eswf(alphas) ==> #[trigger] rs_check(
                v,
                alphas,
            ),
    ensures
        ({
            let f = fold_step(v, alpha, domain_generator(v.len() as int));
            &&& f.len() == v.len() / 2
            &&& domain_size(f.len() as int)
            &&& eswf(f)
            &&& forall|alphas: Seq<Ext>|
                alphas.len() == log2(f.len() as int) - 1 && eswf(alphas) ==> #[trigger] rs_check(
                    f,
                    alphas,
                )
        }),
{
    let n = v.len() as int;
    let g = domain_generator(n);
    let f = fold_step(v, alpha, g);
    lemma_log2_half(n);
    lemma_half_domain(n);
    lemma_fold_step_wf(v, alpha, g);
    assert forall|alphas: Seq<Ext>|
        alphas.len() == log2(f.len() as int) - 1 && eswf(alphas) implies #[trigger] rs_check(
        f,
        alphas,
    ) by {
        let all = seq![alpha] + alphas;
        assert(eswf(all)) by {
            assert forall|i: int| 0 <= i < all.len() implies ewf(#[trigger] all[i]) by {
                if i > 0 {
                    assert(all[i] == alphas[i - 1]);
                }
            }
        }
        assert(rs_check(v, all));
        assert(all.take(log2(n) - 1) =~= all);
        assert(all.drop_first() =~= alphas);
        assert(alphas.take(log2(n / 2) - 1) =~= alphas);
    }
}

/// Folding a constant vector gives that constant in every position, whatever the
/// challenges.
pub proof fn lemma_constant_folds(v: Seq<Ext>, a: Ext, alphas: Seq<Ext>)
    requires
        domain_size(v.len() as int),
        ewf(a),
        alphas.len() <= log2(v.len() as int),
        forall|i: int| 0 <= i < v.len() ==> #[trigger] v[i] == a,
    ensures
        ({
            let f = fold_all(v, alphas, domain_generator(v.len() as int));
            forall|i: int| 0 <= i < f.len() ==> #[trigger] f[i] == a
        }),
    decreases alphas.len(),
{
    let n = v.len() as int;
    if alphas.len() > 0 {
        lemma_pow2_log2(n);
        lemma_log2_half(n);
        lemma_half_domain(n);
        lemma_fold_constant(v, n, a, alphas[0]);
        let f = fold_step(v, alphas[0], domain_generator(n));
        assert(f.len() as int == n / 2);
        lemma_constant_folds(f, a, alphas.drop_first());
        assert(fold_all(v, alphas, domain_generator(n)) == fold_all(
            f,
            alphas.drop_first(),
            domain_generator(n / 2),
        ));
    }
}

} // verus!
