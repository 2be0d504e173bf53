//! Core types: codewords, commitments and openings.

use crate::ext::{fseq, EF};
use crate::field::F;
use vstd::arithmetic::power2::is_pow2;
use vstd::prelude::*;

verus! {

/// Digest size in base-field elements.
pub const DIGEST_SIZE: usize = 8;

/// Minimum evaluations per leaf: two digests' worth, the least the leaf hash takes.
pub const MIN_EVALS_PER_LEAF: usize = 16;

/// Default evaluations per leaf.
pub const DEFAULT_EVALS_PER_LEAF: usize = 16;

/// The evaluations per leaf that the functions without an explicit size use.
pub const EVALS_PER_LEAF: usize = DEFAULT_EVALS_PER_LEAF;

/// A hash digest.
pub type Digest = [F; 8];

/// The digest's elements.
pub open spec fn digest_view(d: Digest) -> Seq<int> {
    fseq(d@)
}

/// A codeword: evaluations of a polynomial over a multiplicative domain.
#[derive(Debug)]
pub struct Codeword {
    /// Evaluation vector: `evals[j] = p(w^j)`.
    pub evals: Vec<F>,
}

impl View for Codeword {
    type V = Seq<int>;

    open spec fn view(&self) -> Seq<int> {
        fseq(self.evals@)
    }
}

impl Clone for Codeword {
    fn clone(&self) -> (r: Self)
        ensures
            r@ == self@,
            r.evals@ == self.evals@,
    {
        let evals = self.evals.clone();
        assert(evals@ =~= self.evals@);
        Codeword { evals }
    }
}

impl Codeword {
    pub fn new(evals: Vec<F>) -> (r: Self)
        ensures
            r.evals@ == evals@,
            r@ == fseq(evals@),
    {
        Codeword { evals }
    }

    pub fn len(&self) -> (r: usize)
        ensures
            r == self@.len(),
    {
        self.evals.len()
    }

    pub fn is_empty(&self) -> (r: bool)
        ensures
            r == (self@.len() == 0),
    {
        self.evals.len() == 0
    }
}

/// A Merkle commitment to a codeword: the root of its tree.
#[derive(Clone, Copy, Debug)]
pub struct Commitment {
    pub root: [F; 8],
}

impl View for Commitment {
    type V = Seq<int>;

    open spec fn view(&self) -> Seq<int> {
        digest_view(self.root)
    }
}

/// Whether two digests hold the same elements.
pub fn digest_eq(a: &Digest, b: &Digest) -> (r: bool)
    ensures
        r == (digest_view(*a) == digest_view(*b)),
{
    let mut i: usize = 0;
    while i < 8
        invariant
            i <= 8,
            forall|j: int| 0 <= j < i ==> a@[j]@ == b@[j]@,
        decreases 8 - i,
    {
        if a[i] != b[i] {
            assert(digest_view(*a)[i as int] != digest_view(*b)[i as int]);
            return false;
        }
        i = i + 1;
    }
    assert(digest_view(*a) =~= digest_view(*b));
    true
}

impl PartialEq for Commitment {
    fn eq(&self, other: &Self) -> (r: bool) {
        digest_eq(&self.root, &other.root)
    }
}

impl vstd::std_specs::cmp::PartialEqSpecImpl for Commitment {
    open spec fn obeys_eq_spec() -> bool {
        true
    }

    open spec fn eq_spec(&self, other: &Self) -> bool {
        self@ == other@
    }
}

impl Eq for Commitment {

}

/// A reasonable number of evaluations per leaf for a codeword of the given length:
/// a power of two, a multiple of eight, at least `MIN_EVALS_PER_LEAF` and, where the
/// codeword is that long, at most `codeword_len`.
pub fn compute_evals_per_leaf(codeword_len: usize) -> (r: usize)
    ensures
        r == (if codeword_len <= 128 {
            MIN_EVALS_PER_LEAF
        } else {
            64
        }),
        is_pow2(r as int),
        r % 8 == 0,
        r >= MIN_EVALS_PER_LEAF,
        codeword_len >= MIN_EVALS_PER_LEAF ==> r <= codeword_len,
{
    proof {
        reveal_with_fuel(is_pow2, 8);
    }
    if codeword_len <= 128 {
        MIN_EVALS_PER_LEAF
    } else if 64 <= codeword_len {
        64
    } else {
        codeword_len
    }
}

/// A Merkle opening proof for a leaf (a chunk of evaluations).
#[derive(Clone, Debug)]
pub struct Opening {
    /// The leaf holds the evaluations from `leaf_index` times its length on.
    pub leaf_index: usize,
    /// The evaluation values in this leaf.
    pub values: Vec<F>,
    /// Authentication path: sibling digests from leaf to root.
    pub siblings: Vec<[F; 8]>,
}

/// A batch of codewords assigned to a single prover.
#[derive(Clone, Debug)]
pub struct Batch {
    /// Indices into the global codeword array.
    pub indices: Vec<usize>,
    /// The codewords in this batch.
    pub codewords: Vec<Codeword>,
    /// Commitments for each codeword.
    pub commitments: Vec<Commitment>,
    /// Challenges derived from the commitments.
    pub challenges: Vec<EF>,
}

} // verus!
