//! Finite sums over the extension field.

use crate::code::lemma_emul_embed_zero;
use crate::ext::{
    eadd, embed, emul, escale, ewf, lemma_eadd_assoc, lemma_eadd_swap, lemma_eadd_zero,
    lemma_emul_dist, lemma_escale_add, lemma_escale_embed_zero, lemma_ewf_ops, Ext,
};
use vstd::prelude::*;

verus! {

/// The sum of `f(0)` up to `f(n - 1)`.
pub open spec fn esum(f: spec_fn(int) -> Ext, n: nat) -> Ext
    decreases n,
{
    if n == 0 {
        embed(0)
    } else {
        eadd(esum(f, (n - 1) as nat), f(n - 1))
    }
}

pub proof fn lemma_esum_wf(f: spec_fn(int) -> Ext, n: nat)
    ensures
        ewf(esum(f, n)),
{
    if n > 0 {
        lemma_ewf_ops(esum(f, (n - 1) as nat), f(n - 1), 0);
    }
}

/// Equal terms give equal sums.
pub proof fn lemma_esum_eq(f: spec_fn(int) -> Ext, g: spec_fn(int) -> Ext, n: nat)
    requires
        forall|i: int| 0 <= i < n ==> #[trigger] f(i) == g(i),
    ensures
        esum(f, n) == esum(g, n),
    decreases n,
{
    if n > 0 {
        lemma_esum_eq(f, g, (n - 1) as nat);
        assert(f(n - 1) == g(n - 1));
    }
}

/// The sum of sums of terms.
pub proof fn lemma_esum_add(f: spec_fn(int) -> Ext, g: spec_fn(int) -> Ext, n: nat)
    ensures
        esum(|i: int| eadd(f(i), g(i)), n) == eadd(esum(f, n), esum(g, n)),
    decreases n,
{
    if n == 0 {
        lemma_eadd_zero(embed(0));
    } else {
        let m = (n - 1) as nat;
        lemma_esum_add(f, g, m);
        lemma_eadd_swap(esum(f, m), esum(g, m), f(n - 1), g(n - 1));
    }
}

/// A factor comes out of a sum.
pub proof fn lemma_esum_mul(a: Ext, f: spec_fn(int) -> Ext, n: nat)
    ensures
        esum(|i: int| emul(a, f(i)), n) == emul(a, esum(f, n)),
    decreases n,
{
    if n == 0 {
        lemma_emul_embed_zero(a);
    } else {
        lemma_esum_mul(a, f, (n - 1) as nat);
        lemma_emul_dist(a, esum(f, (n - 1) as nat), f(n - 1));
    }
}

/// A scalar comes out of a sum.
pub proof fn lemma_esum_scale(s: int, f: spec_fn(int) -> Ext, n: nat)
    ensures
        esum(|i: int| escale(s, f(i)), n) == escale(s, esum(f, n)),
    decreases n,
{
    if n == 0 {
        lemma_escale_embed_zero(s);
    } else {
        lemma_esum_scale(s, f, (n - 1) as nat);
        lemma_escale_add(s, esum(f, (n - 1) as nat), f(n - 1));
    }
}

/// A sum of zeros.
pub proof fn lemma_esum_zero(f: spec_fn(int) -> Ext, n: nat)
    requires
        forall|i: int| 0 <= i < n ==> #[trigger] f(i) == embed(0),
    ensures
        esum(f, n) == embed(0),
    decreases n,
{
    if n > 0 {
        lemma_esum_zero(f, (n - 1) as nat);
        assert(f(n - 1) == embed(0));
        lemma_eadd_zero(embed(0));
    }
}

/// The order of summation does not matter.
pub proof fn lemma_esum_swap(f: spec_fn(int, int) -> Ext, m: nat, n: nat)
    ensures
        esum(|i: int| esum(|j: int| f(i, j), n), m) == esum(
            |j: int| esum(|i: int| f(i, j), m),
            n,
        ),
    decreases m,
{
    let row = |i: int| esum(|j: int| f(i, j), n);
    let col = |j: int| esum(|i: int| f(i, j), m);
    if m == 0 {
        lemma_esum_zero(col, n);
    } else {
        let k = (m - 1) as nat;
        let col1 = |j: int| esum(|i: int| f(i, j), k);
        let last = |j: int| f(k as int, j);
        lemma_esum_swap(f, k, n);
        lemma_esum_add(col1, last, n);
        lemma_esum_eq(col, |j: int| eadd(col1(j), last(j)), n);
        assert(esum(row, m) == eadd(esum(row, k), row(k as int)));
        assert(row(k as int) == esum(last, n)) by {
            lemma_esum_eq(|j: int| f(k as int, j), last, n);
        }
    }
}

/// A sum of `m + n` terms is the sum of the first `m` and the sum of the rest.
pub proof fn lemma_esum_split(f: spec_fn(int) -> Ext, m: nat, n: nat)
    ensures
        esum(f, m + n) == eadd(esum(f, m), esum(|j: int| f(m + j), n)),
    decreases n,
{
    let g = |j: int| f(m + j);
    if n == 0 {
        lemma_esum_wf(f, m);
        lemma_eadd_zero(esum(f, m));
    } else {
        let k = (n - 1) as nat;
        lemma_esum_split(f, m, k);
        assert((m + n - 1) as nat == m + k);
        lemma_eadd_assoc(esum(f, m), esum(g, k), g(k as int));
    }
}

} // verus!
