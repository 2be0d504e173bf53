//! Private inputs of the leaf circuits: commitments, codewords by rows and by columns,
//! and hints.

use crate::ext::{coords, eseq, fseq, Ext, EF};
use crate::field::{F, P};
use crate::inputs::{push_element, push_elements, push_ext, roots};
use crate::rlc::{compute_rlc, cw_views, rlc, same_length};
use crate::slices::{flat, lemma_flat_take};
use crate::types::{Batch, Codeword, Commitment};
use vstd::prelude::*;

verus! {

/// Each value as an extension element: the value followed by four zeros.
pub open spec fn embedded_rows(v: Seq<int>) -> Seq<int> {
    Seq::new(
        v.len() * 5,
        |k: int| if k % 5 == 0 {
            v[k / 5]
        } else {
            0
        },
    )
}

/// The codewords from `first` on by columns: for each of `n` positions the value of each
/// codeword.
pub open spec fn columns(cws: Seq<Seq<int>>, first: int, n: int) -> Seq<int> {
    flat(Seq::new(n as nat, |j: int| column(cws, first, j)))
}

/// Position `j` of the codewords from `first` on.
pub open spec fn column(cws: Seq<Seq<int>>, first: int, j: int) -> Seq<int> {
    Seq::new((cws.len() - first) as nat, |i: int| cws[first + i][j])
}

/// The coordinates of extension elements one after the other.
pub open spec fn flat_coords(s: Seq<Ext>) -> Seq<int> {
    flat(Seq::new(s.len(), |i: int| coords(s[i])))
}

/// Every codeword has at least as many evaluations as the first.
pub open spec fn covers_first(s: Seq<Codeword>) -> bool {
    s.len() > 0 && forall|i: int| 0 <= i < s.len() ==> (#[trigger] s[i])@.len() >= s[0]@.len()
}

/// Append the roots of commitments.
fn push_roots(buf: &mut Vec<F>, commitments: &Vec<Commitment>)
    ensures
        fseq(final(buf)@) == fseq(old(buf)@) + flat(roots(commitments@)),
{
    let n: usize = commitments.len();
    let ghost before = fseq(buf@);
    let ghost v = roots(commitments@);
    let mut i: usize = 0;
    proof {
        assert(v.take(0).len() == 0);
        assert(before + flat(v.take(0)) =~= before);
    }
    while i < n
        invariant
            i <= n == commitments@.len(),
            v == roots(commitments@),
            fseq(buf@) == before + flat(v.take(i as int)),
        decreases n - i,
    {
        crate::inputs::push_digest(buf, &commitments[i].root);
        proof {
            lemma_flat_take(v, i as int);
            assert(before + flat(v.take(i as int)) + v[i as int] =~= before + (flat(
                v.take(i as int),
            ) + v[i as int]));
        }
        i = i + 1;
    }
    assert(v.take(n as int) =~= v);
}

/// Append codewords one after the other.
fn push_rows(buf: &mut Vec<F>, codewords: &Vec<Codeword>)
    ensures
        fseq(final(buf)@) == fseq(old(buf)@) + flat(cw_views(codewords@)),
{
    let n: usize = codewords.len();
    let ghost before = fseq(buf@);
    let ghost v = cw_views(codewords@);
    let mut i: usize = 0;
    proof {
        assert(v.take(0).len() == 0);
        assert(before + flat(v.take(0)) =~= before);
    }
    while i < n
        invariant
            i <= n == codewords@.len(),
            v == cw_views(codewords@),
            fseq(buf@) == before + flat(v.take(i as int)),
        decreases n - i,
    {
        push_elements(buf, &codewords[i].evals);
        proof {
            lemma_flat_take(v, i as int);
            assert(before + flat(v.take(i as int)) + v[i as int] =~= before + (flat(
                v.take(i as int),
            ) + v[i as int]));
        }
        i = i + 1;
    }
    assert(v.take(n as int) =~= v);
}

/// Append a codeword with each value as an extension element.
fn push_embedded(buf: &mut Vec<F>, cw: &Codeword)
    ensures
        fseq(final(buf)@) == fseq(old(buf)@) + embedded_rows(cw@),
{
    let n: usize = cw.evals.len();
    let ghost before = fseq(buf@);
    let mut i: usize = 0;
    assert(before + embedded_rows(cw@.take(0)) =~= before);
    while i < n
        invariant
            i <= n == cw@.len(),
            fseq(buf@) == before + embedded_rows(cw@.take(i as int)),
        decreases n - i,
    {
        let z = F::zero();
        push_element(buf, cw.evals[i]);
        push_element(buf, z);
        push_element(buf, z);
        push_element(buf, z);
        push_element(buf, z);
        i = i + 1;
        assert(fseq(buf@) =~= before + embedded_rows(cw@.take(i as int)));
    }
    assert(cw@.take(n as int) =~= cw@);
}

/// Append one position of the codewords from `first` on.
fn push_column(buf: &mut Vec<F>, codewords: &Vec<Codeword>, first: usize, j: usize)
    requires
        first <= codewords@.len(),
        forall|i: int| first <= i < codewords@.len() ==> (#[trigger] codewords@[i])@.len() > j,
    ensures
        fseq(final(buf)@) == fseq(old(buf)@) + column(
            cw_views(codewords@),
            first as int,
            j as int,
        ),
{
    let n: usize = codewords.len();
    let ghost before = fseq(buf@);
    let ghost col = column(cw_views(codewords@), first as int, j as int);
    let mut i: usize = first;
    assert(before + col.take(0) =~= before);
    while i < n
        invariant
            first <= i <= n == codewords@.len(),
            col == column(cw_views(codewords@), first as int, j as int),
            forall|k: int| first <= k < codewords@.len() ==> (#[trigger] codewords@[k])@.len() > j,
            fseq(buf@) == before + col.take(i - first),
        decreases n - i,
    {
        assert(codewords@[i as int]@.len() > j);
        push_element(buf, codewords[i].evals[j]);
        assert((before + col.take(i - first)).push(col[i - first]) =~= before + col.take(
            i - first + 1,
        ));
        i = i + 1;
    }
    assert(col.take(n - first) =~= col);
}

/// Append the codewords from `first` on by columns.
fn push_columns(buf: &mut Vec<F>, codewords: &Vec<Codeword>, first: usize, n: usize)
    requires
        first <= codewords@.len(),
        forall|i: int| first <= i < codewords@.len() ==> (#[trigger] codewords@[i])@.len() >= n,
    ensures
        fseq(final(buf)@) == fseq(old(buf)@) + columns(
            cw_views(codewords@),
            first as int,
            n as int,
        ),
{
    let ghost before = fseq(buf@);
    let ghost cols = Seq::new(n as nat, |j: int| column(cw_views(codewords@), first as int, j));
    let mut j: usize = 0;
    proof {
        assert(cols.take(0).len() == 0);
        assert(before + flat(cols.take(0)) =~= before);
    }
    while j < n
        invariant
            j <= n,
            first <= codewords@.len(),
            forall|i: int|
                first <= i < codewords@.len() ==> (#[trigger] codewords@[i])@.len() >= n,
            cols == Seq::new(
                n as nat,
                |k: int| column(cw_views(codewords@), first as int, k),
            ),
            fseq(buf@) == before + flat(cols.take(j as int)),
        decreases n - j,
    {
        push_column(buf, codewords, first, j);
        proof {
            lemma_flat_take(cols, j as int);
            assert(before + flat(cols.take(j as int)) + cols[j as int] =~= before + (flat(
                cols.take(j as int),
            ) + cols[j as int]));
        }
        j = j + 1;
    }
    assert(cols.take(n as int) =~= cols);
}

/// The commitments of a batch, and its codewords by rows and by columns: what the batch
/// circuit reads.
pub open spec fn batch_regions(batch: Batch) -> Seq<int> {
    let cws = cw_views(batch.codewords@);
    flat(roots(batch.commitments@)) + flat(cws) + columns(cws, 0, cws[0].len() as int)
}

/// Prepare the regions that the batch circuit reads.
pub fn prepare_batch_regions(batch: &Batch) -> (r: Vec<F>)
    requires
        covers_first(batch.codewords@),
    ensures
        fseq(r@) == batch_regions(*batch),
{
    let n: usize = batch.codewords[0].len();
    let mut buf: Vec<F> = Vec::new();
    push_roots(&mut buf, &batch.commitments);
    assert(fseq(Seq::<F>::empty()) + flat(roots(batch.commitments@)) =~= flat(
        roots(batch.commitments@),
    ));
    push_rows(&mut buf, &batch.codewords);
    push_columns(&mut buf, &batch.codewords, 0, n);
    buf
}

/// The data of a batch: the commitments, the codewords by rows, the first codeword as
/// extension elements, and the other codewords by columns.
pub open spec fn batch_data(batch: Batch) -> Seq<int> {
    let cws = cw_views(batch.codewords@);
    flat(roots(batch.commitments@)) + flat(cws) + embedded_rows(cws[0]) + columns(
        cws,
        1,
        cws[0].len() as int,
    )
}

/// Prepare the data block of a batch.
pub fn prepare_batch_data(batch: &Batch) -> (r: Vec<F>)
    requires
        covers_first(batch.codewords@),
    ensures
        fseq(r@) == batch_data(*batch),
{
    let n: usize = batch.codewords[0].len();
    let mut buf: Vec<F> = Vec::new();
    push_roots(&mut buf, &batch.commitments);
    assert(fseq(Seq::<F>::empty()) + flat(roots(batch.commitments@)) =~= flat(
        roots(batch.commitments@),
    ));
    push_rows(&mut buf, &batch.codewords);
    push_embedded(&mut buf, &batch.codewords[0]);
    push_columns(&mut buf, &batch.codewords, 1, n);
    buf
}

/// Prepare the private input of a circuit that takes the first codeword as extension
/// elements: the data block of the batch.
pub fn prepare_private_input(batch: &Batch, _degree: usize) -> (r: Vec<F>)
    requires
        covers_first(batch.codewords@),
    ensures
        fseq(r@) == batch_data(*batch),
{
    prepare_batch_data(batch)
}

/// The private input of the unified circuit for one raw batch: the counts of recursions
/// and batches, the addresses of the batch data and of what follows it, and the data.
pub open spec fn unified_leaf_input(batch: Batch, public_memory_len: int) -> Seq<int> {
    let data = batch_data(batch);
    let ptr = public_memory_len + 4;
    seq![0, 1, ptr % (P as int), (ptr + data.len()) % (P as int)] + data
}

/// Prepare the private input of the unified circuit in leaf mode.
pub fn prepare_unified_leaf_private_input(batch: &Batch, public_memory_len: usize) -> (r: Vec<F>)
    requires
        covers_first(batch.codewords@),
        public_memory_len + 4 + batch_data(*batch).len() <= usize::MAX,
    ensures
        fseq(r@) == unified_leaf_input(*batch, public_memory_len as int),
{
    let data = prepare_batch_data(batch);
    assert(fseq(data@).len() == data@.len());
    let ptr: usize = public_memory_len + 4;
    let mut buf: Vec<F> = Vec::with_capacity(data.len());
    push_element(&mut buf, F::zero());
    push_element(&mut buf, F::one());
    push_element(&mut buf, F::from_usize(ptr));
    push_element(&mut buf, F::from_usize(ptr + data.len()));
    let ghost head = fseq(buf@);
    push_elements(&mut buf, &data);
    proof {
        let d = batch_data(*batch);
        assert(head =~= seq![
            0int,
            1,
            ptr as int % (P as int),
            (ptr + d.len()) as int % (P as int),
        ]);
    }
    buf
}

/// The private input of the spot-check circuit: what the batch circuit reads, and the linear
/// combination as a hint.
pub open spec fn spotcheck_input(batch: Batch) -> Seq<int> {
    let cws = cw_views(batch.codewords@);
    batch_regions(batch) + flat_coords(rlc(cws, eseq(batch.challenges@), cws[0].len()))
}

/// Append the coordinates of extension elements.
pub fn push_coords(buf: &mut Vec<F>, s: &Vec<EF>)
    ensures
        fseq(final(buf)@) == fseq(old(buf)@) + flat_coords(eseq(s@)),
{
    let n: usize = s.len();
    let ghost before = fseq(buf@);
    let ghost v = Seq::new(eseq(s@).len(), |i: int| coords(eseq(s@)[i]));
    let mut i: usize = 0;
    proof {
        assert(v.take(0).len() == 0);
        assert(before + flat(v.take(0)) =~= before);
    }
    while i < n
        invariant
            i <= n == s@.len(),
            v == Seq::new(eseq(s@).len(), |k: int| coords(eseq(s@)[k])),
            fseq(buf@) == before + flat(v.take(i as int)),
        decreases n - i,
    {
        push_ext(buf, &s[i]);
        proof {
            lemma_flat_take(v, i as int);
            assert(before + flat(v.take(i as int)) + v[i as int] =~= before + (flat(
                v.take(i as int),
            ) + v[i as int]));
        }
        i = i + 1;
    }
    assert(v.take(n as int) =~= v);
}

/// Prepare the private input of the spot-check circuit.
pub fn prepare_spotcheck_private_input(batch: &Batch, _degree: usize) -> (r: Vec<F>)
    requires
        batch.codewords@.len() > 0,
        batch.codewords@.len() == batch.challenges@.len(),
        same_length(batch.codewords@, batch.codewords@[0]@.len() as int),
    ensures
        fseq(r@) == spotcheck_input(*batch),
{
    let mut buf = prepare_batch_regions(batch);
    let hint = compute_rlc(batch.codewords.as_slice(), batch.challenges.as_slice());
    push_coords(&mut buf, &hint);
    buf
}

} // verus!
