//! FRI-style folding with precomputed weight vectors.
//!
//! Folding a codeword of length `N` for `t = log2(d)` rounds with one challenge `b`
//! makes output `i` a linear combination of the `d` inputs `i + s N/d`. Each weight is
//! a polynomial in `b` of degree at most `t` with base-field coefficients that depend
//! only on the domain, so the coefficients can be computed once and combined with `b`
//! later.

use crate::code::{
    combine, evens, fold_all, fold_step, fold_value, in_code, inv_twiddle, is_encoding,
    lemma_element_nonzero, lemma_fold_all_in_code, lemma_fold_encoding, lemma_half_domain,
    lemma_in_code_widen, lemma_one_coefficient_constant, odds,
};
use crate::ext::{
    eadd, embed, embed_seq, emul, epow, escale, eseq, eswf, ewf, ext_of, fseq, lemma_eadd_comm,
    lemma_eadd_swap, lemma_eadd_zero, lemma_emul_assoc, lemma_emul_comm, lemma_emul_dist,
    lemma_emul_dist_left, lemma_emul_embed, lemma_emul_one, lemma_emul_scale, lemma_epow_wf,
    lemma_escale_add, lemma_escale_fadd, lemma_escale_fmul, lemma_escale_unit, lemma_esub_is_add,
    lemma_ewf_ops, Ext, EF,
};
use crate::field::{
    canonical, fadd, finv, fmul, fneg, fpow, lemma_f_range, lemma_fadd_zero, lemma_finv,
    lemma_finv_unique, lemma_fmul_comm, lemma_fpow_add, lemma_fpow_base_one, lemma_fpow_mul,
    lemma_fpow_of_mul, lemma_fpow_one, lemma_fpow_range, lemma_fsub_is_add_neg, F, P,
};
use crate::fri::{fold_once_iterative, lemma_inv_twiddle};
use crate::numeric::{ilog2, lemma_log2_half, lemma_pow2_le, lemma_pow2_log2, log2, pow2_u64};
use crate::polynomial::{domain_generator, domain_size};
use crate::slices::copy_slice;
use crate::sums::{
    esum, lemma_esum_add, lemma_esum_eq, lemma_esum_mul, lemma_esum_scale, lemma_esum_split,
    lemma_esum_swap, lemma_esum_wf, lemma_esum_zero,
};
use crate::types::{digest_view, Digest};
use vstd::arithmetic::power2::{
    is_pow2, lemma2_to64, lemma_pow2_adds, lemma_pow2_pos, lemma_pow2_unfold, pow2,
};
use vstd::prelude::*;

verus! {

/// The coefficients of the polynomial `c` times `a + b X`.
pub open spec fn mul_linear(c: Seq<int>, a: int, b: int) -> Seq<int> {
    Seq::new(
        c.len() + 1,
        |j: int|
            fadd(
                if j > 0 {
                    fmul(b, c[j - 1])
                } else {
                    0
                },
                if j < c.len() {
                    fmul(a, c[j])
                } else {
                    0
                },
            ),
    )
}

/// The twiddle factor of output position `pos` in round `r`: the inverse of the
/// generator to the power `2^r pos`.
pub open spec fn level_twiddle(n: int, r: nat, pos: int) -> int {
    fpow(fpow(finv(domain_generator(n)), pow2(r)), pos as nat)
}

/// The weight, as a polynomial in the challenge, that the final output `i` gives to the
/// input `i + s n/d` of round `r`. Round `r` maps the pair at `pos` and half its input
/// further on to `(1 + b w)/2` times the first plus `(1 - b w)/2` times the second,
/// where `w` is the twiddle factor of `pos`.
pub open spec fn weight(n: int, d: int, r: nat, i: int, s: int) -> Seq<int>
    decreases log2(d) - r,
{
    if r >= log2(d) {
        seq![1]
    } else {
        let k = pow2((log2(d) - r - 1) as nat) as int;
        let q = if s < k {
            s
        } else {
            s - k
        };
        let b = fmul(finv(2), level_twiddle(n, r, i + q * (n / d)));
        mul_linear(
            weight(n, d, r + 1, i, q),
            finv(2),
            if s < k {
                b
            } else {
                fneg(b)
            },
        )
    }
}

/// A precomputed folding plan.
#[derive(Clone, Debug)]
pub struct FoldingPlan {
    /// Codeword length `N`, a power of two.
    pub codeword_len: usize,
    /// Degree bound `d`, a power of two.
    pub degree: usize,
    /// Number of fold rounds, `log2(d)`.
    pub num_rounds: usize,
    /// Number of outputs, `N / d`.
    pub num_outputs: usize,
    /// Distance between the inputs of an output, `N / d`.
    pub stride: usize,
    /// `coeffs[k][i][s]` is the coefficient of the `k`-th power of the challenge in the
    /// weight of input `i + s * stride` for output `i`.
    pub coeffs: Vec<Vec<Vec<F>>>,
}

/// The parameters for which there is a plan.
pub open spec fn plan_params(n: int, d: int) -> bool {
    domain_size(n) && is_pow2(d) && d <= n
}

impl FoldingPlan {
    /// The coefficient tables have the sizes that the other fields say.
    pub open spec fn shape(&self) -> bool {
        &&& self.coeffs@.len() == self.num_rounds + 1
        &&& forall|k: int|
            0 <= k <= self.num_rounds ==> (#[trigger] self.coeffs@[k])@.len() == self.num_outputs
        &&& forall|k: int, i: int|
            0 <= k <= self.num_rounds && 0 <= i < self.num_outputs ==> (
            #[trigger] self.coeffs@[k]@[i])@.len() == self.degree
        &&& forall|i: int, s: int|
            0 <= i < self.num_outputs && 0 <= s < self.degree ==> #[trigger] ancestor(
                i,
                s,
                self.stride as int,
            ) < self.codeword_len
    }

    /// The plan for its codeword length and degree.
    pub open spec fn wf(&self) -> bool {
        &&& plan_params(self.codeword_len as int, self.degree as int)
        &&& self.num_rounds == log2(self.degree as int)
        &&& self.num_outputs == self.codeword_len as int / self.degree as int
        &&& self.stride == self.num_outputs
        &&& self.shape()
        &&& forall|k: int, i: int, s: int|
            0 <= k <= self.num_rounds && 0 <= i < self.num_outputs && 0 <= s < self.degree ==> (
            #[trigger] self.coeffs@[k]@[i]@[s])@ == weight(
                self.codeword_len as int,
                self.degree as int,
                0,
                i,
                s,
            )[k]
    }
}

/// The position of the `s`-th input of output `i`.
pub open spec fn ancestor(i: int, s: int, stride: int) -> int {
    i + s * stride
}

/// The result of applying a folding plan to a codeword.
#[derive(Clone, Debug)]
pub struct FoldedLayer {
    /// One value per output position.
    pub values: Vec<EF>,
}

/// Multiply a polynomial by the linear factor `a + b X`.
pub fn poly_mul_linear(poly: &[F], a: F, b: F) -> (r: Vec<F>)
    requires
        poly@.len() < usize::MAX,
    ensures
        fseq(r@) == mul_linear(fseq(poly@), a@, b@),
{
    let n: usize = poly.len();
    let ghost c = fseq(poly@);
    let ghost target = mul_linear(c, a@, b@);
    let mut result: Vec<F> = vec![F::zero(); n + 1];
    let mut i: usize = 0;
    while i < n
        invariant
            i <= n,
            n == poly@.len() < usize::MAX,
            c == fseq(poly@),
            target == mul_linear(c, a@, b@),
            result@.len() == n + 1,
            forall|j: int| 0 <= j < i ==> #[trigger] result@[j]@ == target[j],
            result@[i as int]@ == (if i > 0 {
                fmul(b@, c[i - 1])
            } else {
                0
            }),
            forall|j: int| i < j <= n ==> #[trigger] result@[j]@ == 0,
        decreases n - i,
    {
        let x = poly[i];
        let low = result[i].add(a.mul(x));
        let high = result[i + 1].add(b.mul(x));
        proof {
            lemma_f_range(b@, x@);
            lemma_fadd_zero(fmul(b@, x@));
        }
        result.set(i, low);
        result.set(i + 1, high);
        i = i + 1;
    }
    proof {
        let last = result@[n as int]@;
        if n > 0 {
            lemma_f_range(b@, c[n - 1]);
        }
        lemma_fadd_zero(last);
        assert(fseq(result@) =~= target);
    }
    result
}

/// One round backwards for one output: every input splits into two.
fn expand_ancestors(
    polys: &Vec<Vec<F>>,
    i: usize,
    stride: usize,
    twiddle_base: F,
    half_f: F,
) -> (r: Vec<Vec<F>>)
    requires
        polys@.len() * 2 <= usize::MAX,
        forall|s: int| 0 <= s < polys@.len() ==> (#[trigger] polys@[s])@.len() < usize::MAX,
        forall|s: int|
            0 <= s < polys@.len() ==> #[trigger] ancestor(i as int, s, stride as int)
                <= usize::MAX,
    ensures
        r@.len() == 2 * polys@.len(),
        forall|s: int|
            0 <= s < polys@.len() ==> fseq((#[trigger] r@[s])@) == mul_linear(
                fseq(polys@[s]@),
                half_f@,
                fmul(
                    half_f@,
                    fpow(twiddle_base@, ancestor(i as int, s, stride as int) as nat),
                ),
            ),
        forall|s: int|
            polys@.len() <= s < 2 * polys@.len() ==> fseq((#[trigger] r@[s])@) == mul_linear(
                fseq(polys@[s - polys@.len()]@),
                half_f@,
                fneg(
                    fmul(
                        half_f@,
                        fpow(
                            twiddle_base@,
                            ancestor(i as int, s - polys@.len(), stride as int) as nat,
                        ),
                    ),
                ),
            ),
{
    let k: usize = polys.len();
    let mut lefts: Vec<Vec<F>> = Vec::with_capacity(2 * k);
    let mut rights: Vec<Vec<F>> = Vec::with_capacity(k);
    let mut s: usize = 0;
    while s < k
        invariant
            s <= k,
            k == polys@.len(),
            forall|q: int| 0 <= q < polys@.len() ==> (#[trigger] polys@[q])@.len() < usize::MAX,
            forall|q: int|
                0 <= q < polys@.len() ==> #[trigger] ancestor(i as int, q, stride as int)
                    <= usize::MAX,
            lefts@.len() == s,
            rights@.len() == s,
            forall|q: int|
                0 <= q < s ==> fseq((#[trigger] lefts@[q])@) == mul_linear(
                    fseq(polys@[q]@),
                    half_f@,
                    fmul(
                        half_f@,
                        fpow(twiddle_base@, ancestor(i as int, q, stride as int) as nat),
                    ),
                ),
            forall|q: int|
                0 <= q < s ==> fseq((#[trigger] rights@[q])@) == mul_linear(
                    fseq(polys@[q]@),
                    half_f@,
                    fneg(
                        fmul(
                            half_f@,
                            fpow(twiddle_base@, ancestor(i as int, q, stride as int) as nat),
                        ),
                    ),
                ),
        decreases k - s,
    {
        proof {
            assert(ancestor(i as int, s as int, stride as int) <= usize::MAX);
            assert(s * stride >= 0) by (nonlinear_arith)
                requires
                    s >= 0,
                    stride >= 0,
            ;
        }
        let pos: usize = i + s * stride;
        let tw = twiddle_base.exp_u64(pos as u64);
        let b = half_f.mul(tw);
        lefts.push(poly_mul_linear(polys[s].as_slice(), half_f, b));
        rights.push(poly_mul_linear(polys[s].as_slice(), half_f, b.neg()));
        s = s + 1;
    }
    let ghost (l, r) = (lefts@, rights@);
    lefts.append(&mut rights);
    assert(lefts@ == l + r);
    lefts
}

/// The weights before round `r` have `t - r + 1` coefficients.
pub proof fn lemma_weight_len(n: int, d: int, r: nat, i: int, s: int)
    requires
        r <= log2(d),
    ensures
        weight(n, d, r, i, s).len() == log2(d) - r + 1,
    decreases log2(d) - r,
{
    if r < log2(d) {
        let k = pow2((log2(d) - r - 1) as nat) as int;
        lemma_weight_len(
            n,
            d,
            r + 1,
            i,
            if s < k {
                s
            } else {
                s - k
            },
        );
    }
}

/// A power of two divides every larger one.
pub proof fn lemma_plan_params(n: int, d: int)
    requires
        plan_params(n, d),
    ensures
        d >= 1,
        n == d * (n / d),
        n / d >= 1,
        log2(d) <= log2(n),
        is_pow2(n / d),
        n / d == pow2((log2(n) - log2(d)) as nat),
{
    lemma_pow2_log2(n);
    lemma_pow2_log2(d);
    let (l, t) = (log2(n), log2(d));
    if t > l {
        vstd::arithmetic::power2::lemma_pow2_strictly_increases(l, t);
    }
    let m = pow2((l - t) as nat) as int;
    lemma_pow2_adds(t, (l - t) as nat);
    assert(d * m == n);
    lemma_pow2_pos((l - t) as nat);
    vstd::arithmetic::div_mod::lemma_fundamental_div_mod_converse(n, d, m, 0);
    crate::numeric::lemma_log2_pow2((l - t) as nat);
}

/// The inputs of the outputs lie within the codeword.
pub proof fn lemma_ancestor_bound(m: int, d: int, i: int, s: int)
    requires
        0 <= i < m,
        0 <= s < d,
    ensures
        0 <= ancestor(i, s, m) < d * m,
{
    assert(0 <= s * m) by (nonlinear_arith)
        requires
            0 <= s,
            0 <= m,
    ;
    assert(s * m + m <= d * m) by (nonlinear_arith)
        requires
            s + 1 <= d,
            0 <= m,
    ;
}

/// The weight polynomials of every output before round `r`.
pub open spec fn level_ok(all: Seq<Vec<Vec<F>>>, n: int, d: int, r: nat) -> bool {
    &&& all.len() == n / d
    &&& forall|i: int|
        0 <= i < all.len() ==> (#[trigger] all[i])@.len() == pow2((log2(d) - r) as nat)
    &&& forall|i: int, s: int|
        0 <= i < all.len() && 0 <= s < pow2((log2(d) - r) as nat) ==> fseq(
            (#[trigger] all[i]@[s])@,
        ) == weight(n, d, r, i, s)
}

/// Precompute a folding plan for the given codeword length and degree bound.
///
/// The rounds are traversed from the last to the first, because the twiddle factor of
/// a round depends on the position in that round's output.
pub fn precompute_folding_plan(codeword_len: usize, degree: usize) -> (r: FoldingPlan)
    requires
        plan_params(codeword_len as int, degree as int),
    ensures
        r.wf(),
        r.codeword_len == codeword_len,
        r.degree == degree,
{
    let ghost (n, d) = (codeword_len as int, degree as int);
    proof {
        lemma_plan_params(n, d);
    }
    let num_rounds: usize = ilog2(degree);
    let num_outputs: usize = codeword_len / degree;
    let log_n: usize = ilog2(codeword_len);
    let omega = F::two_adic_generator(log_n);
    proof {
        lemma_generator_nonzero(n);
        lemma_pow2_log2(d);
    }
    let omega_inv = omega.inverse();
    let half_f = F::two().inverse();

    let mut all: Vec<Vec<Vec<F>>> = initial_level(num_outputs);
    proof {
        lemma2_to64();
        assert(level_ok(all@, n, d, num_rounds as nat));
    }
    let mut round: usize = num_rounds;
    while round > 0
        invariant
            round <= num_rounds == log2(d) <= 24,
            n == codeword_len,
            d == degree,
            plan_params(n, d),
            num_outputs == n / d,
            omega_inv@ == finv(domain_generator(n)),
            half_f@ == finv(2),
            level_ok(all@, n, d, round as nat),
        decreases round,
    {
        let twiddle_base = omega_inv.exp_u64(pow2_u64(round - 1));
        all = previous_level(&all, codeword_len, degree, round - 1, twiddle_base, half_f);
        round = round - 1;
    }
    let mut coeffs: Vec<Vec<Vec<F>>> = Vec::with_capacity(num_rounds + 1);
    let mut k: usize = 0;
    while k <= num_rounds
        invariant
            k <= num_rounds + 1,
            num_rounds == log2(d) <= 24,
            plan_params(n, d),
            num_outputs == n / d,
            d == degree,
            level_ok(all@, n, d, 0),
            coeffs@.len() == k,
            forall|q: int| 0 <= q < k ==> (#[trigger] coeffs@[q])@.len() == num_outputs,
            forall|q: int, i: int|
                0 <= q < k && 0 <= i < num_outputs ==> (#[trigger] coeffs@[q]@[i])@.len()
                    == degree,
            forall|q: int, i: int, s: int|
                0 <= q < k && 0 <= i < num_outputs && 0 <= s < degree ==> (
                #[trigger] coeffs@[q]@[i]@[s])@ == weight(n, d, 0, i, s)[q],
        decreases num_rounds + 1 - k,
    {
        coeffs.push(extract_layer(&all, k, Ghost(n), Ghost(d)));
        k = k + 1;
    }
    proof {
        lemma_plan_params(n, d);
        assert forall|i: int, s: int| 0 <= i < num_outputs && 0 <= s < degree implies
            #[trigger] ancestor(i, s, num_outputs as int) < codeword_len by {
            lemma_ancestor_bound(num_outputs as int, d, i, s);
        }
    }
    FoldingPlan { codeword_len, degree, num_rounds, num_outputs, stride: num_outputs, coeffs }
}

/// The generator of a domain is not zero.
pub proof fn lemma_generator_nonzero(n: int)
    requires
        domain_size(n),
    ensures
        0 < domain_generator(n) < P,
{
    lemma_pow2_log2(n);
    if n >= 2 {
        lemma_half_domain(n);
    } else {
        crate::field::lemma_root_base();
    }
}

/// Before any round each output depends on itself alone.
fn initial_level(num_outputs: usize) -> (r: Vec<Vec<Vec<F>>>)
    ensures
        r@.len() == num_outputs,
        forall|i: int|
            0 <= i < num_outputs ==> (#[trigger] r@[i])@.len() == 1 && fseq(r@[i]@[0]@) == seq![
                1int,
            ],
{
    let mut all: Vec<Vec<Vec<F>>> = Vec::with_capacity(num_outputs);
    let mut i: usize = 0;
    while i < num_outputs
        invariant
            i <= num_outputs,
            all@.len() == i,
            forall|j: int|
                0 <= j < i ==> (#[trigger] all@[j])@.len() == 1 && fseq(all@[j]@[0]@) == seq![
                    1int,
                ],
        decreases num_outputs - i,
    {
        let poly: Vec<F> = vec![F::one()];
        assert(fseq(poly@) =~= seq![1int]);
        let one: Vec<Vec<F>> = vec![poly];
        all.push(one);
        i = i + 1;
    }
    all
}

/// From the weights before round `round + 1` to those before round `round`.
fn previous_level(
    all: &Vec<Vec<Vec<F>>>,
    codeword_len: usize,
    degree: usize,
    round: usize,
    twiddle_base: F,
    half_f: F,
) -> (r: Vec<Vec<Vec<F>>>)
    requires
        plan_params(codeword_len as int, degree as int),
        round < log2(degree as int),
        twiddle_base@ == fpow(
            finv(domain_generator(codeword_len as int)),
            pow2(round as nat),
        ),
        half_f@ == finv(2),
        level_ok(all@, codeword_len as int, degree as int, (round + 1) as nat),
    ensures
        level_ok(r@, codeword_len as int, degree as int, round as nat),
{
    let ghost (n, d) = (codeword_len as int, degree as int);
    let ghost t = log2(d);
    let ghost kk = pow2((t - round - 1) as nat) as int;
    let m: usize = all.len();
    proof {
        lemma_plan_params(n, d);
        lemma_pow2_log2(d);
        lemma_pow2_unfold((t - round) as nat);
        lemma_pow2_le((t - round) as nat, t);
    }
    let mut next: Vec<Vec<Vec<F>>> = Vec::with_capacity(m);
    let mut i: usize = 0;
    while i < m
        invariant
            i <= m,
            m == all@.len() == n / d,
            n == codeword_len,
            d == degree,
            n == d * (n / d),
            t == log2(d),
            round < t,
            kk == pow2((t - round - 1) as nat),
            2 * kk == pow2((t - round) as nat),
            2 * kk <= d <= n,
            plan_params(n, d),
            twiddle_base@ == fpow(finv(domain_generator(n)), pow2(round as nat)),
            half_f@ == finv(2),
            level_ok(all@, n, d, (round + 1) as nat),
            next@.len() == i,
            forall|j: int| 0 <= j < i ==> (#[trigger] next@[j])@.len() == 2 * kk,
            forall|j: int, s: int|
                0 <= j < i && 0 <= s < 2 * kk ==> fseq((#[trigger] next@[j]@[s])@) == weight(
                    n,
                    d,
                    round as nat,
                    j,
                    s,
                ),
        decreases m - i,
    {
        proof {
            assert(all@[i as int]@.len() == kk);
            assert forall|s: int| 0 <= s < kk implies (#[trigger] all@[i as int]@[s])@.len()
                < usize::MAX by {
                assert(fseq(all@[i as int]@[s]@) == weight(n, d, (round + 1) as nat, i as int, s));
                lemma_weight_len(n, d, (round + 1) as nat, i as int, s);
                lemma_log2_small(d);
            }
            assert forall|s: int| 0 <= s < kk implies #[trigger] ancestor(
                i as int,
                s,
                m as int,
            ) <= usize::MAX by {
                lemma_ancestor_bound(m as int, d, i as int, s);
            }
        }
        let row = expand_ancestors(&all[i], i, m, twiddle_base, half_f);
        proof {
            assert forall|s: int| 0 <= s < 2 * kk implies fseq((#[trigger] row@[s])@) == weight(
                n,
                d,
                round as nat,
                i as int,
                s,
            ) by {
                let q = if s < kk {
                    s
                } else {
                    s - kk
                };
                assert(fseq(all@[i as int]@[q]@) == weight(n, d, (round + 1) as nat, i as int, q));
            }
        }
        next.push(row);
        i = i + 1;
    }
    next
}

/// The exponent of a machine integer is below its width.
proof fn lemma_log2_small(d: int)
    requires
        is_pow2(d),
        d <= usize::MAX,
    ensures
        log2(d) < usize::BITS,
{
    lemma_pow2_log2(d);
    crate::numeric::lemma_bits_bound(log2(d), d as usize);
}

/// The coefficients of the `k`-th power of the challenge.
fn extract_layer(all: &Vec<Vec<Vec<F>>>, k: usize, n: Ghost<int>, d: Ghost<int>) -> (r: Vec<
    Vec<F>,
>)
    requires
        plan_params(n@, d@),
        level_ok(all@, n@, d@, 0),
        k <= log2(d@),
    ensures
        r@.len() == all@.len(),
        forall|i: int| 0 <= i < r@.len() ==> (#[trigger] r@[i])@.len() == d@,
        forall|i: int, s: int|
            0 <= i < r@.len() && 0 <= s < d@ ==> (#[trigger] r@[i]@[s])@ == weight(
                n@,
                d@,
                0,
                i,
                s,
            )[k as int],
{
    let m: usize = all.len();
    let mut layer: Vec<Vec<F>> = Vec::with_capacity(m);
    let mut i: usize = 0;
    proof {
        lemma_pow2_log2(d@);
    }
    while i < m
        invariant
            i <= m == all@.len(),
            plan_params(n@, d@),
            pow2(log2(d@)) == d@,
            level_ok(all@, n@, d@, 0),
            k <= log2(d@),
            layer@.len() == i,
            forall|j: int| 0 <= j < i ==> (#[trigger] layer@[j])@.len() == d@,
            forall|j: int, s: int|
                0 <= j < i && 0 <= s < d@ ==> (#[trigger] layer@[j]@[s])@ == weight(
                    n@,
                    d@,
                    0,
                    j,
                    s,
                )[k as int],
        decreases m - i,
    {
        let ancestors: &Vec<Vec<F>> = &all[i];
        let count: usize = ancestors.len();
        assert(count == d@);
        let mut row: Vec<F> = Vec::with_capacity(count);
        let mut s: usize = 0;
        while s < count
            invariant
                s <= count == d@,
                i < all@.len(),
                ancestors@ == all@[i as int]@,
                count == ancestors@.len(),
                plan_params(n@, d@),
                pow2(log2(d@)) == d@,
                level_ok(all@, n@, d@, 0),
                k <= log2(d@),
                row@.len() == s,
                forall|q: int|
                    0 <= q < s ==> (#[trigger] row@[q])@ == weight(n@, d@, 0, i as int, q)[k as int],
            decreases count - s,
        {
            proof {
                let w = weight(n@, d@, 0, i as int, s as int);
                assert(fseq(all@[i as int]@[s as int]@) == w);
                lemma_weight_len(n@, d@, 0, i as int, s as int);
                assert(fseq(ancestors@[s as int]@)[k as int] == w[k as int]);
            }
            row.push(ancestors[s][k]);
            s = s + 1;
        }
        layer.push(row);
        i = i + 1;
    }
    layer
}

/// The sum over `s` of `row[s]` times the input `i + s stride`.
pub open spec fn row_dot(row: Seq<int>, v: Seq<Ext>, i: int, stride: int) -> Ext {
    esum(|s: int| escale(row[s], v[ancestor(i, s, stride)]), row.len())
}

/// Output `i` of a plan: the sum over `k` of `beta^k` times the dot product of row `i`
/// of layer `k` with the inputs of `i`.
pub open spec fn plan_value(plan: FoldingPlan, v: Seq<Ext>, beta: Ext, i: int) -> Ext {
    esum(
        |k: int|
            emul(
                epow(beta, k as nat),
                row_dot(fseq(plan.coeffs@[k]@[i]@), v, i, plan.stride as int),
            ),
        (plan.num_rounds + 1) as nat,
    )
}

/// The outputs of a plan.
pub open spec fn plan_values(plan: FoldingPlan, v: Seq<Ext>, beta: Ext) -> Seq<Ext> {
    Seq::new(plan.num_outputs as nat, |i: int| plan_value(plan, v, beta, i))
}

/// The powers of `beta` from 0 to `t`.
fn powers(beta: EF, t: usize) -> (r: Vec<EF>)
    requires
        t < usize::MAX,
    ensures
        r@.len() == t + 1,
        forall|k: int| 0 <= k <= t ==> (#[trigger] r@[k])@ == epow(beta@, k as nat),
{
    let mut beta_powers: Vec<EF> = Vec::with_capacity(t + 1);
    let mut bp = EF::one();
    let mut k: usize = 0;
    while k <= t
        invariant
            k <= t + 1,
            t < usize::MAX,
            beta_powers@.len() == k,
            bp@ == epow(beta@, k as nat),
            forall|j: int| 0 <= j < k ==> (#[trigger] beta_powers@[j])@ == epow(beta@, j as nat),
        decreases t + 1 - k,
    {
        beta_powers.push(bp);
        proof {
            bp.lemma_view_wf();
            beta.lemma_view_wf();
            lemma_emul_comm(bp@, beta@);
        }
        bp = bp.mul(beta);
        k = k + 1;
    }
    beta_powers
}

/// The dot product of a coefficient row with the inputs of output `i`.
fn dot_row(row: &Vec<F>, codeword: &[EF], i: usize, stride: usize) -> (r: EF)
    requires
        forall|s: int|
            0 <= s < row@.len() ==> 0 <= #[trigger] ancestor(i as int, s, stride as int)
                < codeword@.len(),
    ensures
        r@ == row_dot(fseq(row@), eseq(codeword@), i as int, stride as int),
{
    let ghost term = |s: int|
        escale(fseq(row@)[s], eseq(codeword@)[ancestor(i as int, s, stride as int)]);
    let len: usize = codeword.len();
    let mut dot = EF::zero();
    let mut s: usize = 0;
    while s < row.len()
        invariant
            len == codeword@.len(),
            s <= row@.len(),
            forall|q: int|
                0 <= q < row@.len() ==> 0 <= #[trigger] ancestor(i as int, q, stride as int)
                    < codeword@.len(),
            term == (|q: int|
                escale(fseq(row@)[q], eseq(codeword@)[ancestor(i as int, q, stride as int)])),
            dot@ == esum(term, s as nat),
        decreases row@.len() - s,
    {
        proof {
            let a = ancestor(i as int, s as int, stride as int);
            assert(0 <= a < len);
            assert(s * stride >= 0) by (nonlinear_arith)
                requires
                    s >= 0,
                    stride >= 0,
            ;
            codeword@[a].lemma_view_wf();
            lemma_emul_embed(row@[s as int]@, codeword@[a]@);
        }
        dot = dot.add(EF::from(row[s]).mul(codeword[i + s * stride]));
        s = s + 1;
    }
    dot
}

/// Apply a precomputed folding plan to a codeword with the challenge `beta`.
pub fn apply_folding_plan(plan: &FoldingPlan, codeword: &[EF], beta: EF) -> (r: FoldedLayer)
    requires
        plan.shape(),
        codeword@.len() == plan.codeword_len,
    ensures
        eseq(r.values@) == plan_values(*plan, eseq(codeword@), beta@),
{
    let t: usize = plan.num_rounds;
    assert(plan.coeffs@.len() <= usize::MAX) by {
        assert(plan.coeffs.len() <= usize::MAX);
    }
    let beta_powers = powers(beta, t);
    let mut values: Vec<EF> = Vec::with_capacity(plan.num_outputs);
    let mut i: usize = 0;
    let ghost v = eseq(codeword@);
    while i < plan.num_outputs
        invariant
            i <= plan.num_outputs,
            t == plan.num_rounds < usize::MAX,
            plan.shape(),
            v == eseq(codeword@),
            codeword@.len() == plan.codeword_len,
            beta_powers@.len() == t + 1,
            forall|k: int| 0 <= k <= t ==> (#[trigger] beta_powers@[k])@ == epow(beta@, k as nat),
            values@.len() == i,
            forall|j: int|
                0 <= j < i ==> (#[trigger] values@[j])@ == plan_value(*plan, v, beta@, j),
        decreases plan.num_outputs - i,
    {
        let ghost term = |k: int|
            emul(
                epow(beta@, k as nat),
                row_dot(
                    fseq(plan.coeffs@[k]@[i as int]@),
                    v,
                    i as int,
                    plan.stride as int,
                ),
            );
        let mut acc = EF::zero();
        let mut k: usize = 0;
        while k <= t
            invariant
                k <= t + 1,
                i < plan.num_outputs,
                t == plan.num_rounds < usize::MAX,
                plan.shape(),
                v == eseq(codeword@),
                codeword@.len() == plan.codeword_len,
                beta_powers@.len() == t + 1,
                forall|q: int|
                    0 <= q <= t ==> (#[trigger] beta_powers@[q])@ == epow(beta@, q as nat),
                term == (|q: int|
                    emul(
                        epow(beta@, q as nat),
                        row_dot(
                            fseq(plan.coeffs@[q]@[i as int]@),
                            v,
                            i as int,
                            plan.stride as int,
                        ),
                    )),
                acc@ == esum(term, k as nat),
            decreases t + 1 - k,
        {
            proof {
                assert(plan.coeffs@[k as int]@[i as int]@.len() == plan.degree);
                assert forall|s: int| 0 <= s < plan.degree implies 0 <= #[trigger] ancestor(
                    i as int,
                    s,
                    plan.stride as int,
                ) < codeword@.len() by {
                    assert(s * plan.stride >= 0) by (nonlinear_arith)
                        requires
                            s >= 0,
                            plan.stride >= 0,
                    ;
                }
            }
            let dot = dot_row(&plan.coeffs[k][i], codeword, i, plan.stride);
            acc = acc.add(beta_powers[k].mul(dot));
            k = k + 1;
        }
        values.push(acc);
        i = i + 1;
    }
    assert(eseq(values@) =~= plan_values(*plan, v, beta@));
    FoldedLayer { values }
}

/// Embed base-field evaluations into the extension.
pub fn embed_evals(evals: &[F]) -> (r: Vec<EF>)
    ensures
        eseq(r@) == embed_seq(fseq(evals@)),
{
    let mut out: Vec<EF> = Vec::with_capacity(evals.len());
    let mut i: usize = 0;
    while i < evals.len()
        invariant
            i <= evals@.len(),
            out@.len() == i,
            forall|j: int| 0 <= j < i ==> (#[trigger] out@[j])@ == embed(evals@[j]@),
        decreases evals@.len() - i,
    {
        out.push(EF::from(evals[i]));
        i = i + 1;
    }
    assert(eseq(out@) =~= embed_seq(fseq(evals@)));
    out
}

/// Apply a folding plan to base-field evaluations.
pub fn apply_folding_plan_base(plan: &FoldingPlan, codeword: &[F], beta: EF) -> (r: FoldedLayer)
    requires
        plan.shape(),
        codeword@.len() == plan.codeword_len,
    ensures
        eseq(r.values@) == plan_values(*plan, embed_seq(fseq(codeword@)), beta@),
{
    let ef_codeword = embed_evals(codeword);
    assert(eseq(ef_codeword@).len() == codeword@.len());
    apply_folding_plan(plan, ef_codeword.as_slice(), beta)
}

/// All values are equal.
pub open spec fn all_equal(v: Seq<Ext>) -> bool {
    forall|i: int| 0 <= i < v.len() ==> #[trigger] v[i] == v[0]
}

/// Check whether the folded layer is constant.
pub fn is_constant(layer: &FoldedLayer) -> (r: bool)
    ensures
        r == all_equal(eseq(layer.values@)),
        r <==> forall|i: int, j: int|
            0 <= i < layer.values@.len() && 0 <= j < layer.values@.len()
                ==> (#[trigger] layer.values@[i])@ == (#[trigger] layer.values@[j])@,
{
    let n: usize = layer.values.len();
    let ghost v = eseq(layer.values@);
    if n <= 1 {
        return true;
    }
    let first = layer.values[0];
    let mut i: usize = 1;
    while i < n
        invariant
            1 <= i <= n == layer.values@.len(),
            v == eseq(layer.values@),
            first@ == v[0],
            forall|j: int| 0 <= j < i ==> #[trigger] v[j] == v[0],
        decreases n - i,
    {
        if layer.values[i] != first {
            assert(v[i as int] != v[0]);
            assert(layer.values@[i as int]@ != layer.values@[0]@);
            return false;
        }
        i = i + 1;
    }
    assert forall|a: int, b: int|
        0 <= a < layer.values@.len() && 0 <= b < layer.values@.len() implies (
    #[trigger] layer.values@[a])@ == (#[trigger] layer.values@[b])@ by {
        assert(v[a] == v[0] && v[b] == v[0]);
    }
    true
}

/// The same challenge for each of `t` rounds.
pub open spec fn repeated(beta: Ext, t: nat) -> Seq<Ext> {
    Seq::new(t, |i: int| beta)
}

/// `v` after `t` folding rounds with the challenge `beta` in each.
pub open spec fn folded(v: Seq<Ext>, t: nat, beta: Ext) -> Seq<Ext> {
    fold_all(v, repeated(beta, t), domain_generator(v.len() as int))
}

/// Perform `num_rounds` rounds of folding with the same challenge in each.
pub fn fold_iterative(codeword: &[EF], num_rounds: usize, beta: EF) -> (r: Vec<EF>)
    requires
        domain_size(codeword@.len() as int),
        num_rounds <= log2(codeword@.len() as int),
    ensures
        eseq(r@) == folded(eseq(codeword@), num_rounds as nat, beta@),
{
    let n: usize = codeword.len();
    proof {
        lemma_generator_nonzero(n as int);
        lemma_pow2_log2(n as int);
    }
    let log_n: usize = ilog2(n);
    let mut omega_inv = F::two_adic_generator(log_n).inverse();
    let mut current: Vec<EF> = copy_slice(codeword);
    let mut round: usize = 0;
    while round < num_rounds
        invariant
            round <= num_rounds <= log_n,
            domain_size(current@.len() as int),
            log2(current@.len() as int) == log_n - round,
            omega_inv@ == finv(domain_generator(current@.len() as int)),
            fold_all(
                eseq(current@),
                repeated(beta@, (num_rounds - round) as nat),
                domain_generator(current@.len() as int),
            ) == folded(eseq(codeword@), num_rounds as nat, beta@),
        decreases num_rounds - round,
    {
        let ghost len = current@.len() as int;
        let ghost g = domain_generator(len);
        proof {
            lemma_pow2_log2(len);
            lemma_log2_half(len);
            lemma_half_domain(len);
            lemma_finv(g);
            lemma_finv_square(g);
            let rest = repeated(beta@, (num_rounds - round) as nat);
            assert(rest.drop_first() =~= repeated(beta@, (num_rounds - round - 1) as nat));
        }
        let next = fold_once_iterative(current.as_slice(), beta, omega_inv);
        assert(eseq(next@).len() == next@.len());
        current = next;
        omega_inv = omega_inv.mul(omega_inv);
        round = round + 1;
    }
    current
}

/// The inverse of a square is the square of the inverse.
proof fn lemma_finv_square(g: int)
    requires
        0 < g < P,
    ensures
        finv(fmul(g, g)) == fmul(finv(g), finv(g)),
{
    let u = finv(g);
    lemma_finv(g);
    lemma_f_range(u, u);
    crate::field::lemma_fmul_swap(u, u, g, g);
    crate::field::lemma_fmul_one(1);
    lemma_finv_unique(fmul(g, g), fmul(u, u));
}

/// Check Reed-Solomon membership via precomputed folding: whether the vector becomes
/// constant after `log2(degree)` rounds with the challenge `beta` in each.
pub fn check_rs_precomputed(codeword: &[EF], degree: usize, beta: EF) -> (r: bool)
    requires
        plan_params(codeword@.len() as int, degree as int),
    ensures
        r == all_equal(folded(eseq(codeword@), log2(degree as int), beta@)),
{
    let plan = precompute_folding_plan(codeword.len(), degree);
    let layer = apply_folding_plan(&plan, codeword, beta);
    proof {
        assert forall|i: int| 0 <= i < codeword@.len() implies ewf(
            #[trigger] eseq(codeword@)[i],
        ) by {
            codeword@[i].lemma_view_wf();
        }
        beta.lemma_view_wf();
        lemma_plan_is_folding(plan, eseq(codeword@), beta@);
    }
    is_constant(&layer)
}

/// A challenge from a digest: its first five elements as an extension element.
pub fn challenge_from_digest(digest: &Digest) -> (r: EF)
    ensures
        r@ == ext_of(digest_view(*digest)),
{
    EF { coeffs: [digest[0], digest[1], digest[2], digest[3], digest[4]] }
}

// The weights are those of the folding.

/// The value of the weight polynomial `c` at `beta`.
pub open spec fn weight_at(c: Seq<int>, beta: Ext) -> Ext {
    esum(|k: int| escale(c[k], epow(beta, k as nat)), c.len())
}

/// Multiplying a weight polynomial by `a + b X`.
proof fn lemma_weight_mul_linear(c: Seq<int>, a: int, b: int, beta: Ext)
    ensures
        weight_at(mul_linear(c, a, b), beta) == eadd(
            escale(a, weight_at(c, beta)),
            escale(b, emul(beta, weight_at(c, beta))),
        ),
{
    let n = c.len();
    let l = mul_linear(c, a, b);
    let w = weight_at(c, beta);
    let cterm = |k: int| escale(c[k], epow(beta, k as nat));
    let lterm = |k: int| escale(l[k], epow(beta, k as nat));
    let aterm = |k: int| if k < n {
        escale(a, cterm(k))
    } else {
        embed(0)
    };
    let bterm = |k: int| if k > 0 {
        escale(b, emul(beta, cterm(k - 1)))
    } else {
        embed(0)
    };
    assert forall|k: int| 0 <= k < n + 1 implies #[trigger] lterm(k) == eadd(
        bterm(k),
        aterm(k),
    ) by {
        let p = epow(beta, k as nat);
        let x = if k > 0 {
            fmul(b, c[k - 1])
        } else {
            0
        };
        let y = if k < n {
            fmul(a, c[k])
        } else {
            0
        };
        lemma_escale_fadd(x, y, p);
        lemma_epow_wf(beta, k as nat);
        lemma_escale_unit(p);
        if k < n {
            lemma_escale_fmul(a, c[k], p);
        }
        if k > 0 {
            let p1 = epow(beta, (k - 1) as nat);
            lemma_escale_fmul(b, c[k - 1], p);
            lemma_emul_scale(c[k - 1], beta, p1);
        }
    }
    lemma_esum_eq(lterm, |k: int| eadd(bterm(k), aterm(k)), n + 1);
    lemma_esum_add(bterm, aterm, n + 1);
    // The part with `a`.
    lemma_esum_eq(aterm, |k: int| escale(a, cterm(k)), n);
    lemma_esum_scale(a, cterm, n);
    lemma_esum_wf(aterm, n);
    lemma_eadd_zero(esum(aterm, n));
    assert(esum(aterm, n + 1) == escale(a, w));
    // The part with `b`.
    let bc = |k: int| emul(beta, cterm(k));
    lemma_esum_split(bterm, 1, n);
    lemma_esum_eq(|j: int| bterm(1 + j), |j: int| escale(b, bc(j)), n);
    lemma_esum_scale(b, bc, n);
    lemma_esum_mul(beta, cterm, n);
    assert(esum(bterm, 1) == embed(0)) by {
        reveal_with_fuel(esum, 2);
        lemma_eadd_zero(embed(0));
    }
    lemma_ewf_ops(emul(beta, w), w, b);
    lemma_eadd_zero(escale(b, emul(beta, w)));
    lemma_eadd_comm(escale(a, w), escale(b, emul(beta, w)));
}

/// Folding rounds from the end: the last round folds what the others give.
pub proof fn lemma_fold_all_last(v: Seq<Ext>, alphas: Seq<Ext>, alpha: Ext, g: int)
    requires
        canonical(g),
    ensures
        fold_all(v, alphas.push(alpha), g) == fold_step(
            fold_all(v, alphas, g),
            alpha,
            fpow(g, pow2(alphas.len())),
        ),
    decreases alphas.len(),
{
    if alphas.len() == 0 {
        lemma2_to64();
        lemma_fpow_one(g);
        assert(alphas.push(alpha).drop_first() =~= alphas);
        reveal_with_fuel(fold_all, 2);
    } else {
        let rest = alphas.drop_first();
        assert(alphas.push(alpha).drop_first() =~= rest.push(alpha));
        lemma_f_range(g, g);
        lemma_fold_all_last(fold_step(v, alphas[0], g), rest, alpha, fmul(g, g));
        lemma_pow2_unfold(alphas.len());
        lemma_fpow_one(g);
        lemma_fpow_add(g, 1, 1);
        lemma_fpow_mul(g, 2, pow2(rest.len()));
    }
}

/// Each round halves the length.
pub proof fn lemma_fold_all_len(v: Seq<Ext>, alphas: Seq<Ext>, g: int, m: nat)
    requires
        v.len() == m * pow2(alphas.len()),
    ensures
        fold_all(v, alphas, g).len() == m,
    decreases alphas.len(),
{
    if alphas.len() == 0 {
        lemma2_to64();
        assert(m * 1 == m);
    } else {
        let rest = alphas.drop_first();
        lemma_pow2_unfold(alphas.len());
        let k = pow2(rest.len());
        assert(m * (2 * k) == 2 * (m * k)) by (nonlinear_arith);
        lemma_fold_all_len(fold_step(v, alphas[0], g), rest, fmul(g, g), m);
    }
}

/// A weighted folded pair is the sum of the pair with the two weights of the round
/// before.
proof fn lemma_weighted_pair(c: Seq<int>, x: Ext, y: Ext, b: int, beta: Ext)
    requires
        ewf(x),
        ewf(y),
        ewf(beta),
    ensures
        emul(weight_at(c, beta), fold_value(x, y, beta, b)) == eadd(
            emul(weight_at(mul_linear(c, finv(2), b), beta), x),
            emul(weight_at(mul_linear(c, finv(2), fneg(b)), beta), y),
        ),
{
    let w = weight_at(c, beta);
    let h = finv(2);
    lemma_esum_wf(|k: int| escale(c[k], epow(beta, k as nat)), c.len());
    lemma_weight_mul_linear(c, h, b, beta);
    lemma_weight_mul_linear(c, h, fneg(b), beta);
    lemma_split_fold_value(x, y, b, beta);
    let px = eadd(escale(h, x), escale(b, emul(beta, x)));
    let py = eadd(escale(h, y), escale(fneg(b), emul(beta, y)));
    lemma_emul_dist(w, px, py);
    lemma_move_factor(w, x, h, b, beta);
    lemma_move_factor(w, y, h, fneg(b), beta);
}

/// `fold_value` as a combination of its two arguments.
proof fn lemma_split_fold_value(x: Ext, y: Ext, b: int, beta: Ext)
    requires
        ewf(x),
        ewf(y),
    ensures
        fold_value(x, y, beta, b) == eadd(
            eadd(escale(finv(2), x), escale(b, emul(beta, x))),
            eadd(escale(finv(2), y), escale(fneg(b), emul(beta, y))),
        ),
{
    let h = finv(2);
    let m = P - 1;
    lemma_escale_add(h, x, y);
    lemma_esub_is_add(x, y);
    lemma_escale_add(b, x, escale(m, y));
    lemma_fsub_is_add_neg(0, b);
    lemma_fmul_comm(m, b);
    lemma_escale_fmul(b, m, y);
    lemma_emul_dist(beta, escale(b, x), escale(fneg(b), y));
    lemma_emul_scale(b, beta, x);
    lemma_emul_scale(fneg(b), beta, y);
    lemma_eadd_swap(
        escale(h, x),
        escale(h, y),
        escale(b, emul(beta, x)),
        escale(fneg(b), emul(beta, y)),
    );
}

/// `w (h x + b beta x) = (h w + b beta w) x`.
proof fn lemma_move_factor(w: Ext, x: Ext, h: int, b: int, beta: Ext)
    requires
        ewf(w),
        ewf(x),
        ewf(beta),
    ensures
        emul(w, eadd(escale(h, x), escale(b, emul(beta, x)))) == emul(
            eadd(escale(h, w), escale(b, emul(beta, w))),
            x,
        ),
{
    lemma_emul_dist(w, escale(h, x), escale(b, emul(beta, x)));
    lemma_emul_dist_left(escale(h, w), escale(b, emul(beta, w)), x);
    lemma_emul_scale(h, w, x);
    lemma_emul_scale(b, w, emul(beta, x));
    lemma_emul_scale(b, emul(beta, w), x);
    lemma_emul_assoc(w, beta, x);
    lemma_emul_comm(w, beta);
}

/// The value that the final output `i` has as a weighted sum of the inputs of round `r`.
spec fn weighted_sum(n: int, d: int, r: nat, i: int, v: Seq<Ext>, beta: Ext) -> Ext {
    esum(
        |s: int| emul(weight_at(weight(n, d, r, i, s), beta), v[ancestor(i, s, n / d)]),
        pow2((log2(d) - r) as nat),
    )
}

/// One round backwards keeps the weighted sum.
proof fn lemma_weighted_round(n: int, d: int, r: nat, i: int, v: Seq<Ext>, beta: Ext)
    requires
        plan_params(n, d),
        r < log2(d),
        0 <= i < n / d,
        v.len() == (n / d) * pow2((log2(d) - r) as nat),
        eswf(v),
        ewf(beta),
    ensures
        weighted_sum(n, d, r, i, v, beta) == weighted_sum(
            n,
            d,
            r + 1,
            i,
            fold_step(v, beta, fpow(domain_generator(n), pow2(r))),
            beta,
        ),
{
    let t = log2(d);
    let m = n / d;
    let k = pow2((t - r - 1) as nat);
    let g = fpow(domain_generator(n), pow2(r));
    let f = fold_step(v, beta, g);
    lemma_pow2_unfold((t - r) as nat);
    lemma_plan_params(n, d);
    assert(m * (2 * k) == 2 * (m * k)) by (nonlinear_arith);
    assert(f.len() == m * k);
    let old_term = |s: int| emul(weight_at(weight(n, d, r + 1, i, s), beta), f[ancestor(i, s, m)]);
    let term = |s: int| emul(weight_at(weight(n, d, r, i, s), beta), v[ancestor(i, s, m)]);
    let high = |s: int| term(k + s);
    assert forall|s: int| 0 <= s < k implies #[trigger] old_term(s) == eadd(term(s), high(s)) by {
        let p = ancestor(i, s, m);
        let c = weight(n, d, r + 1, i, s);
        let b = fmul(finv(2), level_twiddle(n, r, p));
        lemma_ancestor_bound(m, k as int, i, s);
        lemma_ancestor_bound(m, 2 * k as int, i, s);
        lemma_ancestor_bound(m, 2 * k as int, i, k + s);
        assert(k * m == m * k) by (nonlinear_arith);
        assert((2 * k) * m == m * (2 * k)) by (nonlinear_arith);
        assert(p + m * k == ancestor(i, k + s, m)) by (nonlinear_arith)
            requires
                p == i + s * m,
                ancestor(i, k + s, m) == i + (k + s) * m,
        ;
        lemma_level_twiddle(n, r, p);
        assert(f[p] == fold_value(v[p], v[p + m * k], beta, b));
        lemma_weighted_pair(c, v[p], v[p + m * k], b, beta);
        assert(weight(n, d, r, i, s) == mul_linear(c, finv(2), b));
        assert(weight(n, d, r, i, k + s) == mul_linear(c, finv(2), fneg(b)));
    }
    lemma_esum_split(term, k, k);
    lemma_esum_eq(|j: int| term(k + j), high, k);
    lemma_esum_add(term, high, k);
    lemma_esum_eq(old_term, |s: int| eadd(term(s), high(s)), k);
    assert(k + k == pow2((t - r) as nat));
}

/// The inverse twiddles of round `r` are halves of the level twiddles.
proof fn lemma_level_twiddle(n: int, r: nat, p: int)
    requires
        domain_size(n),
        p >= 0,
    ensures
        inv_twiddle(fpow(domain_generator(n), pow2(r)), p) == fmul(
            finv(2),
            level_twiddle(n, r, p),
        ),
{
    let g = domain_generator(n);
    let q = pow2(r);
    lemma_generator_nonzero(n);
    lemma_element_nonzero(g, q);
    lemma_inv_twiddle(fpow(g, q), p as nat);
    let u = finv(g);
    lemma_finv(g);
    lemma_fpow_of_mul(u, g, q);
    lemma_fpow_base_one(q);
    lemma_fpow_range(u, q);
    lemma_finv_unique(fpow(g, q), fpow(u, q));
}

/// Every output of the folding is its weighted sum over the inputs of round `r`.
proof fn lemma_weighted_folding(n: int, d: int, r: nat, i: int, v: Seq<Ext>, beta: Ext)
    requires
        plan_params(n, d),
        r <= log2(d),
        0 <= i < n / d,
        v.len() == n,
        eswf(v),
        ewf(beta),
    ensures
        folded(v, log2(d), beta)[i] == weighted_sum(n, d, r, i, folded(v, r, beta), beta),
        folded(v, r, beta).len() == (n / d) * pow2((log2(d) - r) as nat),
        eswf(folded(v, r, beta)),
    decreases log2(d) - r,
{
    let t = log2(d);
    let m = n / d;
    let g = domain_generator(n);
    lemma_plan_params(n, d);
    lemma_pow2_log2(d);
    lemma_generator_nonzero(n);
    lemma_pow2_adds((t - r) as nat, r);
    let len = m * pow2((t - r) as nat);
    assert(d * m == m * d) by (nonlinear_arith);
    assert(m * (pow2((t - r) as nat) * pow2(r)) == (m * pow2((t - r) as nat)) * pow2(r))
        by (nonlinear_arith);
    assert(len >= 0) by (nonlinear_arith)
        requires
            len == m * pow2((t - r) as nat),
            m >= 0,
    ;
    lemma_fold_all_len(v, repeated(beta, r), g, len as nat);
    lemma_folded_wf(v, r, beta);
    let f = folded(v, r, beta);
    if r == t {
        lemma2_to64();
        let term = |s: int| emul(weight_at(weight(n, d, r, i, s), beta), f[ancestor(i, s, m)]);
        assert(m * 1 == m);
        assert(0 * m == 0) by (nonlinear_arith);
        assert(ancestor(i, 0, m) == i);
        assert(term(0) == f[i]) by {
            let c = seq![1int];
            assert(weight(n, d, r, i, 0) == c);
            let wt = |k: int| escale(c[k], epow(beta, k as nat));
            assert(weight_at(c, beta) == embed(1)) by {
                reveal_with_fuel(esum, 2);
                assert(weight_at(c, beta) == esum(wt, 1));
                lemma_escale_unit(embed(1));
                lemma_eadd_zero(embed(1));
            }
            lemma_emul_one(f[i]);
        }
        assert(esum(term, 1) == f[i]) by {
            reveal_with_fuel(esum, 2);
            lemma_eadd_zero(f[i]);
        }
    } else {
        lemma_weighted_folding(n, d, r + 1, i, v, beta);
        lemma_weighted_round(n, d, r, i, f, beta);
        lemma_fold_all_last(v, repeated(beta, r), beta, g);
        assert(repeated(beta, r).push(beta) =~= repeated(beta, r + 1));
    }
}

proof fn lemma_folded_wf(v: Seq<Ext>, r: nat, beta: Ext)
    requires
        eswf(v),
        domain_size(v.len() as int),
    ensures
        eswf(folded(v, r, beta)),
{
    let g = domain_generator(v.len() as int);
    if r > 0 {
        lemma_generator_nonzero(v.len() as int);
        let q = (r - 1) as nat;
        lemma_fold_all_last(v, repeated(beta, q), beta, g);
        assert(repeated(beta, q).push(beta) =~= repeated(beta, r));
        crate::code::lemma_fold_step_wf(
            fold_all(v, repeated(beta, q), g),
            beta,
            fpow(g, pow2(q)),
        );
    } else {
        assert(repeated(beta, 0).len() == 0);
    }
}

/// A plan's output, summed by inputs instead of powers of the challenge.
proof fn lemma_plan_value_swap(plan: FoldingPlan, v: Seq<Ext>, beta: Ext, i: int)
    requires
        plan.wf(),
        v.len() == plan.codeword_len,
        eswf(v),
        ewf(beta),
        0 <= i < plan.num_outputs,
    ensures
        plan_value(plan, v, beta, i) == weighted_sum(
            plan.codeword_len as int,
            plan.degree as int,
            0,
            i,
            v,
            beta,
        ),
{
    let n = plan.codeword_len as int;
    let d = plan.degree as int;
    let m = n / d;
    let t = log2(d);
    lemma_plan_params(n, d);
    lemma_pow2_log2(d);
    let at = |s: int| v[ancestor(i, s, m)];
    let f = |k: int, s: int|
        escale(weight(n, d, 0, i, s)[k], emul(epow(beta, k as nat), at(s)));
    let by_power = |k: int|
        emul(
            epow(beta, k as nat),
            row_dot(fseq(plan.coeffs@[k]@[i]@), v, i, plan.stride as int),
        );
    assert forall|k: int| 0 <= k < t + 1 implies #[trigger] by_power(k) == esum(
        |s: int| f(k, s),
        d as nat,
    ) by {
        let p = epow(beta, k as nat);
        let row = fseq(plan.coeffs@[k]@[i]@);
        assert(row.len() == d);
        let inner = |s: int| escale(row[s], v[ancestor(i, s, plan.stride as int)]);
        lemma_esum_mul(p, inner, d as nat);
        assert forall|s: int| 0 <= s < d implies emul(p, #[trigger] inner(s)) == f(k, s) by {
            assert(plan.coeffs@[k]@[i]@[s]@ == weight(n, d, 0, i, s)[k]);
            lemma_emul_scale(row[s], p, at(s));
        }
        let lhs = |s: int| emul(p, inner(s));
        let rhs = |s: int| f(k, s);
        assert forall|s: int| 0 <= s < d implies #[trigger] lhs(s) == rhs(s) by {
            assert(emul(p, inner(s)) == f(k, s));
        }
        lemma_esum_eq(lhs, rhs, d as nat);
    }
    lemma_esum_eq(by_power, |k: int| esum(|s: int| f(k, s), d as nat), (t + 1) as nat);
    lemma_esum_swap(f, (t + 1) as nat, d as nat);
    let by_input = |s: int| emul(weight_at(weight(n, d, 0, i, s), beta), at(s));
    let cols = |s: int| esum(|k: int| f(k, s), (t + 1) as nat);
    assert forall|s: int| 0 <= s < d implies #[trigger] cols(s) == by_input(s) by {
        let c = weight(n, d, 0, i, s);
        lemma_weight_len(n, d, 0, i, s);
        lemma_ancestor_bound(m, d, i, s);
        let wterm = |k: int| escale(c[k], epow(beta, k as nat));
        let x = at(s);
        lemma_esum_wf(wterm, c.len());
        lemma_emul_comm(weight_at(c, beta), x);
        lemma_esum_mul(x, wterm, c.len());
        let lhs = |k: int| f(k, s);
        let rhs = |k: int| emul(x, wterm(k));
        assert forall|k: int| 0 <= k < c.len() implies #[trigger] lhs(k) == rhs(k) by {
            let p = epow(beta, k as nat);
            lemma_epow_wf(beta, k as nat);
            lemma_emul_scale(c[k], x, p);
            lemma_emul_comm(x, p);
        }
        lemma_esum_eq(lhs, rhs, c.len());
    }
    lemma_esum_eq(cols, by_input, d as nat);
    lemma_esum_eq(
        by_input,
        |s: int| emul(weight_at(weight(n, d, 0, i, s), beta), v[ancestor(i, s, n / d)]),
        d as nat,
    );
}

/// Applying the precomputed plan gives what `log2(degree)` folding rounds give, for
/// every vector and every challenge.
pub proof fn lemma_plan_is_folding(plan: FoldingPlan, v: Seq<Ext>, beta: Ext)
    requires
        plan.wf(),
        v.len() == plan.codeword_len,
        eswf(v),
        ewf(beta),
    ensures
        plan_values(plan, v, beta) == folded(v, plan.num_rounds as nat, beta),
{
    let n = plan.codeword_len as int;
    let d = plan.degree as int;
    lemma_plan_params(n, d);
    let f = folded(v, plan.num_rounds as nat, beta);
    lemma_weighted_folding(n, d, log2(d), 0, v, beta);
    lemma2_to64();
    assert((n / d) * 1 == n / d);
    assert forall|i: int| 0 <= i < n / d implies #[trigger] plan_value(plan, v, beta, i)
        == f[i] by {
        lemma_plan_value_swap(plan, v, beta, i);
        lemma_weighted_folding(n, d, 0, i, v, beta);
        assert(repeated(beta, 0) =~= Seq::<Ext>::empty());
        assert(folded(v, 0, beta) == v);
    }
    assert(plan_values(plan, v, beta) =~= f);
}

// Laws of the precomputed folding.

/// A codeword of degree below the bound folds to a constant layer, whatever the
/// challenge.
pub proof fn lemma_codeword_folds_to_constant(v: Seq<Ext>, degree: int, d: nat, beta: Ext)
    requires
        plan_params(v.len() as int, degree),
        d <= degree,
        in_code(v, v.len() as int, d),
    ensures
        all_equal(folded(v, log2(degree), beta)),
{
    let n = v.len() as int;
    lemma_plan_params(n, degree);
    lemma_pow2_log2(degree);
    lemma_in_code_widen(v, n, d, degree as nat);
    let alphas = repeated(beta, log2(degree));
    assert(pow2(alphas.len()) * 1 == degree);
    lemma_fold_all_in_code(v, n, 1, alphas);
    let f = folded(v, log2(degree), beta);
    let m = pow2((log2(n) - log2(degree)) as nat) as int;
    lemma_one_coefficient_constant(f, m);
    assert(f.len() == m) by {
        let c = choose|c: Seq<Ext>| c.len() == 1 && eswf(c) && #[trigger] is_encoding(f, c, m);
        assert(is_encoding(f, c, m));
    }
}

/// With the challenge 0 a codeword folds to the constant coefficient of its polynomial.
pub proof fn lemma_zero_challenge_gives_constant_term(v: Seq<Ext>, c: Seq<Ext>, t: nat)
    requires
        domain_size(v.len() as int),
        t <= log2(v.len() as int),
        c.len() == pow2(t),
        eswf(c),
        is_encoding(v, c, v.len() as int),
    ensures
        forall|i: int|
            0 <= i < folded(v, t, embed(0)).len() ==> #[trigger] folded(v, t, embed(0))[i] == c[0],
    decreases t,
{
    let n = v.len() as int;
    let z = embed(0);
    let f = folded(v, t, z);
    lemma_pow2_pos(t);
    if t == 0 {
        lemma2_to64();
        assert(f == v);
        assert forall|i: int| 0 <= i < f.len() implies #[trigger] f[i] == c[0] by {
            assert(in_code(v, n, 1));
            let x = crate::polynomial::domain_element(n, i);
            assert(c.drop_first().len() == 0);
            assert(crate::code::epoly(c.drop_first(), x) == embed(0));
            crate::ext::lemma_escale_embed_zero(x);
            lemma_eadd_zero(c[0]);
        }
    } else {
        lemma_pow2_log2(n);
        lemma_log2_half(n);
        lemma_half_domain(n);
        lemma_pow2_unfold(t);
        let q = (t - 1) as nat;
        let c1 = combine(evens(c), z, odds(c));
        lemma_fold_encoding(v, c, n, z);
        let v1 = fold_step(v, z, domain_generator(n));
        assert(v1.len() as int == n / 2);
        lemma_zero_challenge_gives_constant_term(v1, c1, q);
        assert(c1[0] == c[0]) by {
            assert(evens(c)[0] == c[0] && ewf(c[0]) && ewf(c[1]));
            lemma_emul_embed(0, c[1]);
            lemma_escale_unit(c[1]);
            lemma_eadd_zero(c[0]);
        }
        assert(repeated(z, t).drop_first() =~= repeated(z, q));
        assert(f == folded(v1, q, z));
    }
}

/// The lowest coefficient of every weight is one half to the number of rounds.
proof fn lemma_weight_first(n: int, d: int, r: nat, i: int, s: int)
    requires
        r <= log2(d),
    ensures
        weight(n, d, r, i, s)[0] == fpow(finv(2), (log2(d) - r) as nat),
    decreases log2(d) - r,
{
    if r < log2(d) {
        let k = pow2((log2(d) - r - 1) as nat) as int;
        let q = if s < k {
            s
        } else {
            s - k
        };
        lemma_weight_first(n, d, r + 1, i, q);
        lemma_weight_len(n, d, r + 1, i, q);
        let c = weight(n, d, r + 1, i, q);
        lemma_f_range(finv(2), c[0]);
        lemma_fadd_zero(fmul(finv(2), c[0]));
    }
}

/// `2^t` times one half to the `t` is one.
proof fn lemma_half_powers(t: nat)
    requires
        pow2(t) < P,
    ensures
        fpow(2, t) == pow2(t),
        fmul(fpow(finv(2), t), pow2(t) as int) == 1,
    decreases t,
{
    lemma2_to64();
    if t == 0 {
        crate::field::lemma_fmul_one(1);
    } else {
        let q = (t - 1) as nat;
        lemma_pow2_unfold(t);
        lemma_half_powers(q);
        assert(fmul(2, pow2(q) as int) == pow2(t)) by {
            reveal(fmul);
            vstd::arithmetic::div_mod::lemma_small_mod(pow2(t), P as nat);
        }
        lemma_finv(2);
        lemma_fpow_of_mul(finv(2), 2, t);
        lemma_fpow_base_one(t);
    }
}

/// The coefficients of the zeroth power of the challenge are all the inverse of the
/// degree.
pub proof fn lemma_constant_weights_uniform(plan: FoldingPlan, i: int, s: int)
    requires
        plan.wf(),
        0 <= i < plan.num_outputs,
        0 <= s < plan.degree,
    ensures
        fmul(plan.coeffs@[0]@[i]@[s]@, plan.degree as int) == 1,
        plan.coeffs@[0]@[i]@[s]@ == finv(plan.degree as int),
{
    let (n, d) = (plan.codeword_len as int, plan.degree as int);
    lemma_weight_first(n, d, 0, i, s);
    lemma_pow2_log2(d);
    lemma_plan_params(n, d);
    lemma_pow2_le(log2(d), 24);
    lemma2_to64();
    lemma_half_powers(log2(d));
    plan.coeffs@[0]@[i]@[s].lemma_view_range();
    lemma_finv_unique(d, plan.coeffs@[0]@[i]@[s]@);
}

/// The sum of a sequence of base field elements.
pub open spec fn fsum(s: Seq<int>) -> int
    decreases s.len(),
{
    if s.len() == 0 {
        0
    } else {
        fadd(fsum(s.drop_last()), s.last())
    }
}

/// The sum of `s.len()` equal terms.
proof fn lemma_fsum_uniform(s: Seq<int>, x: int)
    requires
        canonical(x),
        forall|i: int| 0 <= i < s.len() ==> s[i] == x,
    ensures
        fsum(s) == fmul(s.len() as int, x),
    decreases s.len(),
{
    if s.len() == 0 {
        crate::field::lemma_fmul_zero(x);
    } else {
        let t = s.drop_last();
        lemma_fsum_uniform(t, x);
        reveal(fmul);
        reveal(fadd);
        let k = t.len() as int;
        assert((k + 1) * x == k * x + x) by (nonlinear_arith);
        vstd::arithmetic::div_mod::lemma_add_mod_noop(k * x, x, P as int);
        vstd::arithmetic::div_mod::lemma_small_mod(x as nat, P as nat);
    }
}

/// The coefficients of the zeroth power of the challenge sum to one for every output.
pub proof fn lemma_constant_weights_sum_to_one(plan: FoldingPlan, i: int)
    requires
        plan.wf(),
        0 <= i < plan.num_outputs,
    ensures
        fsum(fseq(plan.coeffs@[0]@[i]@)) == 1,
{
    let d = plan.degree as int;
    let row = fseq(plan.coeffs@[0]@[i]@);
    lemma_plan_params(plan.codeword_len as int, d);
    assert(row.len() == d);
    assert forall|s: int| 0 <= s < d implies row[s] == finv(d) by {
        lemma_constant_weights_uniform(plan, i, s);
    }
    lemma_constant_weights_uniform(plan, i, 0);
    plan.coeffs@[0]@[i]@[0].lemma_view_range();
    lemma_fsum_uniform(row, finv(d));
    lemma_fmul_comm(d, finv(d));
}

/// With the challenge 0 every output is the average of its inputs.
pub proof fn lemma_zero_challenge_averages(plan: FoldingPlan, v: Seq<Ext>, i: int)
    requires
        plan.wf(),
        v.len() == plan.codeword_len,
        eswf(v),
        0 <= i < plan.num_outputs,
    ensures
        plan_value(plan, v, embed(0), i) == escale(
            finv(plan.degree as int),
            esum(|s: int| v[ancestor(i, s, plan.stride as int)], plan.degree as nat),
        ),
{
    let (n, d) = (plan.codeword_len as int, plan.degree as int);
    let z = embed(0);
    let m = plan.stride as int;
    lemma_plan_params(n, d);
    let term = |k: int|
        emul(epow(z, k as nat), row_dot(fseq(plan.coeffs@[k]@[i]@), v, i, m));
    let rest = |j: int| term(1 + j);
    let t = plan.num_rounds as nat;
    lemma_esum_split(term, 1, t);
    assert forall|j: int| 0 <= j < t implies #[trigger] rest(j) == z by {
        let k = (j + 1) as nat;
        let row = fseq(plan.coeffs@[k as int]@[i]@);
        let dot = row_dot(row, v, i, m);
        lemma_esum_wf(|s: int| escale(row[s], v[ancestor(i, s, m)]), row.len());
        lemma_epow_wf(z, (k - 1) as nat);
        lemma_emul_embed(0, epow(z, (k - 1) as nat));
        lemma_escale_unit(epow(z, (k - 1) as nat));
        lemma_emul_embed(0, dot);
        lemma_escale_unit(dot);
    }
    lemma_esum_zero(rest, t);
    lemma_esum_eq(|j: int| term(1 + j), rest, t);
    let row = fseq(plan.coeffs@[0]@[i]@);
    let at = |s: int| v[ancestor(i, s, m)];
    let weighted = |s: int| escale(row[s], v[ancestor(i, s, m)]);
    assert(row.len() == d);
    lemma_esum_wf(weighted, d as nat);
    let dot = row_dot(row, v, i, m);
    lemma_emul_one(dot);
    assert(term(0) == dot);
    assert(esum(term, 1) == dot) by {
        reveal_with_fuel(esum, 2);
        lemma_eadd_zero(dot);
    }
    lemma_eadd_zero(dot);
    assert forall|s: int| 0 <= s < d implies #[trigger] weighted(s) == escale(finv(d), at(s)) by {
        lemma_constant_weights_uniform(plan, i, s);
    }
    lemma_esum_eq(weighted, |s: int| escale(finv(d), at(s)), d as nat);
    lemma_esum_scale(finv(d), at, d as nat);
    lemma_esum_eq(at, |s: int| v[ancestor(i, s, plan.stride as int)], d as nat);
}

/// The plan of degree one changes nothing.
pub proof fn lemma_degree_one_is_identity(plan: FoldingPlan, v: Seq<Ext>, beta: Ext)
    requires
        plan.wf(),
        plan.degree == 1,
        v.len() == plan.codeword_len,
        eswf(v),
        ewf(beta),
    ensures
        plan_values(plan, v, beta) == v,
{
    lemma_plan_is_folding(plan, v, beta);
    crate::numeric::lemma_log2_one();
    assert(repeated(beta, 0).len() == 0);
}

} // verus!
