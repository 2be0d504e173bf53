//! Claims on the encodings of programs, and their reduction to one.

use crate::ext::{coords, embed, emul, epow, eseq, ext_of, fseq, lemma_emul_comm, Ext, EF};
use crate::field::F;
use crate::inputs::push_ext;
use crate::sums::esum;
use crate::vm::{claim_len, point_n_vars, Bytecode, Evaluation};
use crate::witness::{flat_coords, push_coords};
use vstd::prelude::*;

verus! {

/// A claimed value at a point.
pub struct Claim {
    pub point: Seq<Ext>,
    pub value: Ext,
}

impl View for Evaluation {
    type V = Claim;

    open spec fn view(&self) -> Claim {
        Claim { point: eseq(self.point@), value: self.value@ }
    }
}

/// The claims of a sequence of evaluations.
pub open spec fn claim_views(s: Seq<Evaluation>) -> Seq<Claim> {
    Seq::new(s.len(), |i: int| s[i]@)
}

/// The `i`-th extension element of a sequence of coordinates that starts at `offset`.
pub open spec fn ext_at(data: Seq<int>, offset: int, i: int) -> Ext {
    ext_of(data.skip(offset + 5 * i))
}

/// The claim that stands at `offset` in a public input.
pub open spec fn parsed_claim(data: Seq<int>, offset: int, n_vars: int) -> Claim {
    Claim {
        point: Seq::new(n_vars as nat, |i: int| ext_at(data, offset, i)),
        value: ext_at(data, offset, n_vars),
    }
}

/// Read an extension element.
fn read_ext(data: &Vec<F>, at: usize) -> (r: EF)
    requires
        at + 5 <= data@.len(),
    ensures
        r@ == ext_of(fseq(data@).skip(at as int)),
{
    let len: usize = data.len();
    assert(at + 5 <= len);
    EF { coeffs: [data[at], data[at + 1], data[at + 2], data[at + 3], data[at + 4]] }
}

/// Read the claim at `offset` in a public input.
pub fn parse_claim(data: &Vec<F>, offset: usize, n_vars: usize) -> (r: Evaluation)
    requires
        offset + claim_len(n_vars as int) <= data@.len(),
    ensures
        r@ == parsed_claim(fseq(data@), offset as int, n_vars as int),
{
    let len: usize = data.len();
    let mut point: Vec<EF> = Vec::with_capacity(n_vars);
    let mut i: usize = 0;
    let mut at: usize = offset;
    while i < n_vars
        invariant
            i <= n_vars,
            len == data@.len(),
            offset + claim_len(n_vars as int) <= len,
            at == offset + 5 * i,
            point@.len() == i,
            forall|j: int|
                0 <= j < i ==> (#[trigger] point@[j])@ == ext_at(fseq(data@), offset as int, j),
        decreases n_vars - i,
    {
        point.push(read_ext(data, at));
        i = i + 1;
        at = at + 5;
    }
    let value = read_ext(data, at);
    let r = Evaluation { point, value };
    assert(r@.point =~= parsed_claim(fseq(data@), offset as int, n_vars as int).point);
    r
}

/// The claim that the encoding at the zero point is `zero_eval`.
pub open spec fn zero_claim(n_vars: int, zero_eval: int) -> Claim {
    Claim { point: Seq::new(n_vars as nat, |i: int| embed(0)), value: embed(zero_eval) }
}

/// Build the claim on the zero point.
pub fn build_zero_claim(n_vars: usize, zero_eval: F) -> (r: Evaluation)
    ensures
        r@ == zero_claim(n_vars as int, zero_eval@),
{
    let point: Vec<EF> = vec![EF::zero(); n_vars];
    let r = Evaluation { point, value: EF::from(zero_eval) };
    assert(r@.point =~= zero_claim(n_vars as int, zero_eval@).point);
    r
}

/// Copy a claim.
pub fn copy_evaluation(e: &Evaluation) -> (r: Evaluation)
    ensures
        r@ == e@,
{
    let point = crate::slices::copy_slice(e.point.as_slice());
    Evaluation { point, value: e.value }
}

/// What the reduction of claims gives: one claim, and the transcript that a verifier
/// follows.
#[derive(Debug)]
pub struct Reduction {
    pub point: Vec<EF>,
    pub value: EF,
    pub transcript: Vec<F>,
}

/// The sum of the claimed values, each times a power of `alpha`.
pub open spec fn claimed_sum(claims: Seq<Claim>, alpha: Ext) -> Ext {
    esum(|i: int| emul(claims[i].value, epow(alpha, i as nat)), claims.len())
}

/// The powers of `alpha` below `n`.
pub open spec fn powers_of(alpha: Ext, n: nat) -> Seq<Ext> {
    Seq::new(n, |i: int| epow(alpha, i as nat))
}

/// Compute the powers of `alpha` below `n`.
pub fn alpha_powers(alpha: EF, n: usize) -> (r: Vec<EF>)
    ensures
        eseq(r@) == powers_of(alpha@, n as nat),
{
    let mut out: Vec<EF> = Vec::with_capacity(n);
    let mut p = EF::one();
    let mut i: usize = 0;
    while i < n
        invariant
            i <= n,
            p@ == epow(alpha@, i as nat),
            out@.len() == i,
            forall|j: int| 0 <= j < i ==> (#[trigger] out@[j])@ == epow(alpha@, j as nat),
        decreases n - i,
    {
        out.push(p);
        proof {
            p.lemma_view_wf();
            alpha.lemma_view_wf();
            lemma_emul_comm(p@, alpha@);
        }
        p = p.mul(alpha);
        i = i + 1;
    }
    assert(eseq(out@) =~= powers_of(alpha@, n as nat));
    out
}

/// Compute the sum of the claimed values, each times its power.
pub fn compute_claimed_sum(claims: &Vec<Evaluation>, powers: &Vec<EF>, alpha: EF) -> (r: EF)
    requires
        eseq(powers@) == powers_of(alpha@, claims@.len()),
    ensures
        r@ == claimed_sum(claim_views(claims@), alpha@),
{
    let n: usize = claims.len();
    let ghost v = claim_views(claims@);
    let ghost term = |i: int| emul(v[i].value, epow(alpha@, i as nat));
    let mut acc = EF::zero();
    let mut i: usize = 0;
    assert(powers@.len() == eseq(powers@).len());
    while i < n
        invariant
            i <= n == claims@.len(),
            powers@.len() == n,
            eseq(powers@) == powers_of(alpha@, n as nat),
            v == claim_views(claims@),
            term == (|k: int| emul(v[k].value, epow(alpha@, k as nat))),
            acc@ == esum(term, i as nat),
        decreases n - i,
    {
        proof {
            assert(eseq(powers@)[i as int] == powers@[i as int]@);
        }
        acc = acc.add(claims[i].value.mul(powers[i]));
        i = i + 1;
    }
    acc
}

/// `r` is the reduction of the claims: `begin` absorbs the claims and draws `alpha`, and
/// `sumcheck` reduces the claims weighted with the powers of `alpha`.
pub open spec fn is_reduction<
    B,
    S,
    G: Fn(&Vec<Evaluation>) -> (S, EF),
    R: Fn(S, &Bytecode<B>, &Vec<Evaluation>, &Vec<EF>, EF) -> Reduction,
>(begin: G, sumcheck: R, bytecode: Bytecode<B>, claims: Seq<Claim>, r: Reduction) -> bool {
    exists|c: Vec<Evaluation>, s: S, alpha: EF, p: Vec<EF>, e: EF|
        claim_views(c@) == claims && #[trigger] call_ensures(begin, (&c,), (s, alpha)) && eseq(p@)
            == powers_of(alpha@, claims.len()) && e@ == claimed_sum(claims, alpha@)
            && #[trigger] call_ensures(sumcheck, (s, &bytecode, &c, &p, e), r)
}

/// The claims can be reduced: `begin` can be called on them and `sumcheck` on what comes
/// of that, and the reduced point has as many coordinates as the program's encoding has
/// variables.
pub open spec fn reduces<
    B,
    S,
    G: Fn(&Vec<Evaluation>) -> (S, EF),
    R: Fn(S, &Bytecode<B>, &Vec<Evaluation>, &Vec<EF>, EF) -> Reduction,
>(begin: G, sumcheck: R, bytecode: Bytecode<B>, claims: Seq<Claim>, columns: int) -> bool {
    &&& forall|c: Vec<Evaluation>|
        claim_views(c@) == claims ==> #[trigger] call_requires(begin, (&c,))
    &&& forall|c: Vec<Evaluation>, s: S, alpha: EF, p: Vec<EF>, e: EF|
        claim_views(c@) == claims && #[trigger] call_ensures(begin, (&c,), (s, alpha)) && eseq(p@)
            == powers_of(alpha@, claims.len()) && e@ == claimed_sum(claims, alpha@)
            ==> #[trigger] call_requires(sumcheck, (s, &bytecode, &c, &p, e))
    &&& forall|r: Reduction| #[trigger]
        is_reduction(begin, sumcheck, bytecode, claims, r) ==> r.point@.len() == point_n_vars(
            bytecode.log_size as int,
            columns,
        )
}

/// Reduce claims on a program's encoding to one.
pub fn do_bytecode_sumcheck_reduction<
    B,
    S,
    G: Fn(&Vec<Evaluation>) -> (S, EF),
    R: Fn(S, &Bytecode<B>, &Vec<Evaluation>, &Vec<EF>, EF) -> Reduction,
>(
    begin: &G,
    sumcheck: &R,
    bytecode: &Bytecode<B>,
    claims: &Vec<Evaluation>,
    columns: usize,
) -> (r: Reduction)
    requires
        reduces(*begin, *sumcheck, *bytecode, claim_views(claims@), columns as int),
    ensures
        is_reduction(*begin, *sumcheck, *bytecode, claim_views(claims@), r),
        r.point@.len() == point_n_vars(bytecode.log_size as int, columns as int),
{
    let (state, alpha) = begin(claims);
    let powers = alpha_powers(alpha, claims.len());
    let sum = compute_claimed_sum(claims, &powers, alpha);
    assert(claim_views(claims@).len() == claims@.len());
    let r = sumcheck(state, bytecode, claims, &powers, sum);
    assert(is_reduction(*begin, *sumcheck, *bytecode, claim_views(claims@), r));
    r
}

/// A reduced claim as base field elements: the point and then the value.
pub open spec fn flat_claim(point: Seq<Ext>, value: Ext) -> Seq<int> {
    flat_coords(point) + coords(value)
}

/// Flatten a reduced claim.
pub fn compute_reduced_claim(r: &Reduction) -> (out: Vec<F>)
    ensures
        fseq(out@) == flat_claim(eseq(r.point@), r.value@),
        out@.len() == claim_len(r.point@.len() as int),
{
    let mut out: Vec<F> = Vec::new();
    push_coords(&mut out, &r.point);
    push_ext(&mut out, &r.value);
    proof {
        let f = flat_coords(eseq(r.point@));
        assert(fseq(Seq::<F>::empty()) + f =~= f);
        lemma_flat_coords_len(eseq(r.point@));
        assert(fseq(out@).len() == out@.len());
    }
    out
}

/// Five coordinates for each element.
pub proof fn lemma_flat_coords_len(s: Seq<Ext>)
    ensures
        flat_coords(s).len() == 5 * s.len(),
    decreases s.len(),
{
    if s.len() > 0 {
        let t = s.drop_last();
        lemma_flat_coords_len(t);
        let a = Seq::new(s.len(), |i: int| coords(s[i]));
        assert(a.drop_last() =~= Seq::new(t.len(), |i: int| coords(t[i])));
    }
}

} // verus!
