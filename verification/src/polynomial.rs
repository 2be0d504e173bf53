//! Polynomials and Reed-Solomon encoding over multiplicative domains.
//!
//! The multiplicative group has order 2^24 * 127, so there are domains of every
//! power-of-two size up to 2^24.

use crate::ext::fseq;
use crate::field::{fadd, fmul, fpow, lemma_fmul_comm, two_adic_root, F, TWO_ADICITY};
use crate::numeric::{ilog2, lemma_pow2_log2, log2};
use crate::slices::copy_slice;
use crate::types::Codeword;
use vstd::arithmetic::power2::is_pow2;
use vstd::prelude::*;

verus! {

/// The value at `x` of the polynomial with coefficients `c` in ascending order.
pub open spec fn fpoly(c: Seq<int>, x: int) -> int
    decreases c.len(),
{
    if c.len() == 0 {
        0
    } else {
        fadd(c[0], fmul(x, fpoly(c.drop_first(), x)))
    }
}

/// A domain size: a power of two up to `2^TWO_ADICITY`.
pub open spec fn domain_size(n: int) -> bool {
    is_pow2(n) && log2(n) <= TWO_ADICITY
}

/// The generator of the domain of size `n`.
pub open spec fn domain_generator(n: int) -> int {
    two_adic_root(log2(n))
}

/// The `i`-th element of the domain of size `n`.
pub open spec fn domain_element(n: int, i: int) -> int {
    fpow(domain_generator(n), i as nat)
}

/// A polynomial in coefficient form, coefficients in ascending order.
#[derive(Clone, Debug)]
pub struct Polynomial {
    /// `coeffs[i]` is the coefficient of `x^i`.
    pub coeffs: Vec<F>,
}

impl View for Polynomial {
    type V = Seq<int>;

    open spec fn view(&self) -> Seq<int> {
        fseq(self.coeffs@)
    }
}

impl Polynomial {
    pub fn new(coeffs: Vec<F>) -> (r: Self)
        ensures
            r.coeffs@ == coeffs@,
            r@ == fseq(coeffs@),
    {
        Polynomial { coeffs }
    }

    /// The number of coefficients.
    pub fn len(&self) -> (r: usize)
        ensures
            r == self@.len(),
    {
        self.coeffs.len()
    }

    pub fn is_empty(&self) -> (r: bool)
        ensures
            r == (self@.len() == 0),
    {
        self.coeffs.len() == 0
    }

    /// Evaluate at a single point using Horner's method.
    pub fn evaluate(&self, x: F) -> (r: F)
        ensures
            r@ == fpoly(self@, x@),
    {
        let n: usize = self.coeffs.len();
        if n == 0 {
            return F::zero();
        }
        let mut result: F = self.coeffs[n - 1];
        let mut i: usize = n - 1;
        proof {
            result.lemma_view_range();
            let tail = self@.skip(i as int);
            assert(tail.drop_first().len() == 0);
            assert(fpoly(tail.drop_first(), x@) == 0);
            assert(tail[0] == result@);
            crate::field::lemma_fmul_zero(x@);
            crate::field::lemma_fadd_zero(result@);
        }
        while i > 0
            invariant
                i < n,
                n == self.coeffs@.len(),
                result@ == fpoly(self@.skip(i as int), x@),
            decreases i,
        {
            i = i - 1;
            proof {
                let tail = self@.skip(i as int);
                assert(tail.drop_first() =~= self@.skip(i + 1));
                lemma_fmul_comm(x@, result@);
                crate::field::lemma_fadd_comm(self@[i as int], fmul(x@, result@));
            }
            result = result.mul(x).add(self.coeffs[i]);
        }
        assert(self@.skip(0) =~= self@);
        result
    }

    /// Evaluate on every element of a domain.
    pub fn evaluate_domain(&self, domain: &Domain) -> (r: Vec<F>)
        ensures
            r@.len() == domain.elements@.len(),
            forall|i: int|
                0 <= i < r@.len() ==> #[trigger] r@[i]@ == fpoly(self@, domain.elements@[i]@),
    {
        let n: usize = domain.elements.len();
        let mut out: Vec<F> = Vec::with_capacity(n);
        let mut i: usize = 0;
        while i < n
            invariant
                i <= n,
                n == domain.elements@.len(),
                out@.len() == i,
                forall|j: int|
                    0 <= j < i ==> #[trigger] out@[j]@ == fpoly(self@, domain.elements@[j]@),
            decreases n - i,
        {
            out.push(self.evaluate(domain.elements[i]));
            i = i + 1;
        }
        out
    }
}

/// A multiplicative domain: the subgroup `{1, w, w^2, ..}` of the given size, where `w`
/// is a primitive root of unity.
#[derive(Clone, Debug)]
pub struct Domain {
    /// Domain size, a power of two.
    pub size: usize,
    /// Primitive root of unity of that order.
    pub generator: F,
    /// All domain elements in order.
    pub elements: Vec<F>,
}

impl Domain {
    /// The generator is the one for the size, and the elements are its powers.
    pub open spec fn wf(&self) -> bool {
        &&& domain_size(self.size as int)
        &&& self.generator@ == domain_generator(self.size as int)
        &&& self.elements@.len() == self.size
        &&& forall|i: int|
            0 <= i < self.size ==> #[trigger] self.elements@[i]@ == domain_element(
                self.size as int,
                i,
            )
    }

    /// Create the multiplicative domain of the given size.
    pub fn new(size: usize) -> (r: Self)
        requires
            domain_size(size as int),
        ensures
            r.wf(),
            r.size == size,
    {
        proof {
            lemma_pow2_log2(size as int);
        }
        let bits: usize = ilog2(size);
        let generator = F::two_adic_generator(bits);
        let mut elements: Vec<F> = Vec::with_capacity(size);
        let mut current = F::one();
        let mut i: usize = 0;
        while i < size
            invariant
                i <= size,
                generator@ == domain_generator(size as int),
                elements@.len() == i,
                current@ == domain_element(size as int, i as int),
                forall|j: int|
                    0 <= j < i ==> #[trigger] elements@[j]@ == domain_element(size as int, j),
            decreases size - i,
        {
            elements.push(current);
            proof {
                lemma_fmul_comm(current@, generator@);
            }
            current = current.mul(generator);
            i = i + 1;
        }
        Domain { size, generator, elements }
    }
}

/// The Reed-Solomon encoding of a message on the domain of size `n`: the evaluations
/// of the polynomial whose coefficients are the message.
pub open spec fn encoding(message: Seq<int>, n: int) -> Seq<int> {
    Seq::new(n as nat, |i: int| fpoly(message, domain_element(n, i)))
}

/// Encode a message as a Reed-Solomon codeword.
///
/// Interprets `message` as polynomial coefficients and evaluates the polynomial on
/// the domain of size `domain_size`, which must exceed the message length.
pub fn rs_encode(message: &[F], domain_size: usize) -> (r: Codeword)
    requires
        message@.len() > 0,
        domain_size > message@.len(),
        self::domain_size(domain_size as int),
    ensures
        r@ == encoding(fseq(message@), domain_size as int),
{
    let coeffs: Vec<F> = copy_slice(message);
    let poly = Polynomial::new(coeffs);
    let domain = Domain::new(domain_size);
    let evals = poly.evaluate_domain(&domain);
    let r = Codeword::new(evals);
    assert(r@ =~= encoding(fseq(message@), domain_size as int));
    r
}

/// The elements of a domain are distinct.
pub proof fn lemma_domain_distinct(d: Domain, i: int, j: int)
    requires
        d.wf(),
        0 <= i < j < d.size,
    ensures
        d.elements@[i]@ != d.elements@[j]@,
{
    lemma_pow2_log2(d.size as int);
    crate::roots::lemma_powers_distinct(log2(d.size as int), i as nat, j as nat);
}

/// The generator of a domain is a primitive root of unity: its power to the size is 1,
/// and no smaller positive power is.
pub proof fn lemma_generator_primitive(d: Domain, k: nat)
    requires
        d.wf(),
    ensures
        fpow(d.generator@, d.size as nat) == 1,
        0 < k < d.size ==> fpow(d.generator@, k) != 1,
{
    let n = d.size as int;
    lemma_pow2_log2(n);
    crate::field::lemma_root_order(log2(n));
    if 0 < k < d.size {
        crate::roots::lemma_powers_distinct(log2(n), 0, k);
    }
}

} // verus!
