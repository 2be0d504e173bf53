//! Random linear combinations of codewords.
//!
//! For codewords `b_i` over the base field and challenges `r_i` in the extension, the
//! combination has at position `j` the sum of `r_i b_i[j]`.

use crate::code::{combine, epoly, in_code, is_encoding, lemma_in_code_combine};
use crate::ext::{
    eadd, embed, embed_seq, emul, eseq, ewf, ext_of, lemma_eadd_zero, lemma_emul_dist_left,
    lemma_emul_one, lemma_ewf_ops, Ext, EF,
};
use crate::sums::{esum, lemma_esum_eq};
use crate::types::{Codeword, Commitment};
use vstd::prelude::*;

verus! {

/// Derive a challenge from a commitment: the first five digest elements as the
/// coordinates of an extension element.
pub fn derive_challenge(commitment: &Commitment) -> (r: EF)
    ensures
        r@ == ext_of(commitment@),
{
    crate::fold::challenge_from_digest(&commitment.root)
}

/// The value of the combination at position `j`.
pub open spec fn rlc_at(codewords: Seq<Seq<int>>, challenges: Seq<Ext>, j: int) -> Ext {
    esum(|i: int| emul(challenges[i], embed(codewords[i][j])), codewords.len())
}

/// The combination of codewords of length `n`.
pub open spec fn rlc(codewords: Seq<Seq<int>>, challenges: Seq<Ext>, n: nat) -> Seq<Ext> {
    Seq::new(n, |j: int| rlc_at(codewords, challenges, j))
}

/// The views of a sequence of codewords.
pub open spec fn cw_views(s: Seq<Codeword>) -> Seq<Seq<int>> {
    Seq::new(s.len(), |i: int| s[i]@)
}

/// All codewords have length `n`.
pub open spec fn same_length(s: Seq<Codeword>, n: int) -> bool {
    forall|i: int| 0 <= i < s.len() ==> (#[trigger] s[i])@.len() == n
}

/// Add one codeword times its challenge to the running combination.
fn accumulate(result: Vec<EF>, cw: &Codeword, r: EF) -> (out: Vec<EF>)
    requires
        cw@.len() == result@.len(),
    ensures
        out@.len() == result@.len(),
        forall|j: int|
            0 <= j < out@.len() ==> (#[trigger] out@[j])@ == eadd(
                result@[j]@,
                emul(r@, embed(cw@[j])),
            ),
{
    let n: usize = result.len();
    let mut out: Vec<EF> = Vec::with_capacity(n);
    let mut j: usize = 0;
    while j < n
        invariant
            j <= n == result@.len(),
            cw@.len() == n,
            out@.len() == j,
            forall|k: int|
                0 <= k < j ==> (#[trigger] out@[k])@ == eadd(
                    result@[k]@,
                    emul(r@, embed(cw@[k])),
                ),
        decreases n - j,
    {
        let embedded = EF::from(cw.evals[j]);
        out.push(result[j].add(r.mul(embedded)));
        j = j + 1;
    }
    out
}

/// Compute the random linear combination of codewords of equal length.
pub fn compute_rlc(codewords: &[Codeword], challenges: &[EF]) -> (r: Vec<EF>)
    requires
        codewords@.len() > 0,
        codewords@.len() == challenges@.len(),
        same_length(codewords@, codewords@[0]@.len() as int),
    ensures
        eseq(r@) == rlc(cw_views(codewords@), eseq(challenges@), codewords@[0]@.len()),
{
    let n: usize = codewords[0].len();
    let m: usize = codewords.len();
    let ghost (cws, rs) = (cw_views(codewords@), eseq(challenges@));
    let mut result: Vec<EF> = vec![EF::zero(); n];
    let mut i: usize = 0;
    while i < m
        invariant
            i <= m == codewords@.len(),
            m == challenges@.len(),
            same_length(codewords@, n as int),
            cws == cw_views(codewords@),
            rs == eseq(challenges@),
            result@.len() == n,
            forall|j: int|
                0 <= j < n ==> (#[trigger] result@[j])@ == esum(
                    |k: int| emul(rs[k], embed(cws[k][j])),
                    i as nat,
                ),
        decreases m - i,
    {
        let ghost before = result@;
        result = accumulate(result, &codewords[i], challenges[i]);
        proof {
            assert forall|j: int| 0 <= j < n implies (#[trigger] result@[j])@ == esum(
                |k: int| emul(rs[k], embed(cws[k][j])),
                (i + 1) as nat,
            ) by {
                assert(before[j]@ == esum(|k: int| emul(rs[k], embed(cws[k][j])), i as nat));
                assert(cws[i as int][j] == codewords@[i as int]@[j]);
            }
        }
        i = i + 1;
    }
    assert(eseq(result@) =~= rlc(cws, rs, n as nat));
    result
}

/// A single codeword with the challenge 1 gives the embedded codeword.
pub proof fn lemma_rlc_single(cw: Seq<int>, n: nat)
    requires
        cw.len() == n,
        forall|j: int| 0 <= j < n ==> crate::field::canonical(#[trigger] cw[j]),
    ensures
        rlc(seq![cw], seq![embed(1)], n) == embed_seq(cw),
{
    let (cws, rs) = (seq![cw], seq![embed(1)]);
    assert forall|j: int| 0 <= j < n implies #[trigger] rlc_at(cws, rs, j) == embed(cw[j]) by {
        reveal_with_fuel(esum, 2);
        lemma_emul_one(embed(cw[j]));
        lemma_eadd_zero(embed(cw[j]));
    }
    assert(rlc(cws, rs, n) =~= embed_seq(cw));
}

/// Two copies of a codeword with challenges `r1` and `r2` give the codeword times
/// `r1 + r2`.
pub proof fn lemma_rlc_linear(cw: Seq<int>, r1: Ext, r2: Ext, j: int)
    requires
        0 <= j < cw.len(),
        ewf(r1),
    ensures
        rlc_at(seq![cw, cw], seq![r1, r2], j) == emul(eadd(r1, r2), embed(cw[j])),
{
    reveal_with_fuel(esum, 3);
    let e = embed(cw[j]);
    lemma_ewf_ops(r1, e, 0);
    lemma_eadd_zero(emul(r1, e));
    lemma_emul_dist_left(r1, r2, e);
}

/// The combination of codewords is a codeword of the same degree bound.
pub proof fn lemma_rlc_in_code(codewords: Seq<Seq<int>>, challenges: Seq<Ext>, n: int, d: nat)
    requires
        n >= 0,
        codewords.len() == challenges.len(),
        forall|i: int| 0 <= i < challenges.len() ==> ewf(#[trigger] challenges[i]),
        forall|i: int|
            0 <= i < codewords.len() ==> in_code(embed_seq(#[trigger] codewords[i]), n, d),
    ensures
        in_code(rlc(codewords, challenges, n as nat), n, d),
    decreases codewords.len(),
{
    let v = rlc(codewords, challenges, n as nat);
    if codewords.len() == 0 {
        let c = Seq::new(d, |k: int| embed(0));
        assert forall|i: int| 0 <= i < n implies #[trigger] v[i] == epoly(
            c,
            crate::polynomial::domain_element(n, i),
        ) by {
            lemma_epoly_zero(d, crate::polynomial::domain_element(n, i));
        }
        assert(is_encoding(v, c, n));
    } else {
        let k = codewords.len() - 1;
        let (cs, rs) = (codewords.drop_last(), challenges.drop_last());
        lemma_rlc_in_code(cs, rs, n, d);
        let u = rlc(cs, rs, n as nat);
        let last = embed_seq(codewords[k]);
        let alpha = challenges[k];
        lemma_in_code_combine(u, alpha, last, n, d);
        assert(last.len() == n) by {
            let c = choose|c: Seq<Ext>|
                c.len() == d && crate::ext::eswf(c) && #[trigger] is_encoding(last, c, n);
            assert(is_encoding(last, c, n));
        }
        assert forall|j: int| 0 <= j < n implies #[trigger] v[j] == combine(u, alpha, last)[j] by {
            let f = |i: int| emul(challenges[i], embed(codewords[i][j]));
            let g = |i: int| emul(rs[i], embed(cs[i][j]));
            lemma_esum_eq(f, g, k as nat);
        }
        assert(v =~= combine(u, alpha, last));
    }
}

/// The zero polynomial is zero everywhere.
proof fn lemma_epoly_zero(d: nat, x: int)
    ensures
        epoly(Seq::new(d, |k: int| embed(0)), x) == embed(0),
    decreases d,
{
    let c = Seq::new(d, |k: int| embed(0));
    if d > 0 {
        lemma_epoly_zero((d - 1) as nat, x);
        assert(c.drop_first() =~= Seq::new((d - 1) as nat, |k: int| embed(0)));
        crate::ext::lemma_escale_embed_zero(x);
        lemma_eadd_zero(embed(0));
    }
}

} // verus!
