//! Copies of slices.

use vstd::prelude::*;

verus! {

/// The elements from `start` up to `end`.
pub fn copy_range<T: Copy>(s: &[T], start: usize, end: usize) -> (r: Vec<T>)
    requires
        start <= end <= s@.len(),
    ensures
        r@ == s@.subrange(start as int, end as int),
{
    let mut r: Vec<T> = Vec::with_capacity(end - start);
    let mut i: usize = start;
    while i < end
        invariant
            start <= i <= end <= s@.len(),
            r@ == s@.subrange(start as int, i as int),
        decreases end - i,
    {
        r.push(s[i]);
        i = i + 1;
        assert(r@ =~= s@.subrange(start as int, i as int));
    }
    r
}

/// All elements of a slice.
pub fn copy_slice<T: Copy>(s: &[T]) -> (r: Vec<T>)
    ensures
        r@ == s@,
{
    let r = copy_range(s, 0, s.len());
    assert(s@.subrange(0, s@.len() as int) =~= s@);
    r
}

/// Append the elements of a slice.
pub fn append_slice<T: Copy>(buf: &mut Vec<T>, s: &[T])
    ensures
        final(buf)@ == old(buf)@ + s@,
{
    let n: usize = s.len();
    let ghost start = buf@;
    let mut i: usize = 0;
    assert(buf@ =~= start + s@.take(0));
    while i < n
        invariant
            i <= n == s@.len(),
            buf@ == start + s@.take(i as int),
        decreases n - i,
    {
        buf.push(s[i]);
        i = i + 1;
        assert(buf@ =~= start + s@.take(i as int));
    }
    assert(s@.take(n as int) =~= s@);
}

/// The concatenation of sequences.
pub open spec fn flat<T>(s: Seq<Seq<T>>) -> Seq<T>
    decreases s.len(),
{
    if s.len() == 0 {
        Seq::empty()
    } else {
        flat(s.drop_last()) + s.last()
    }
}

/// One more sequence.
pub proof fn lemma_flat_take<T>(s: Seq<Seq<T>>, i: int)
    requires
        0 <= i < s.len(),
    ensures
        flat(s.take(i + 1)) == flat(s.take(i)) + s[i],
{
    assert(s.take(i + 1).drop_last() =~= s.take(i));
}

/// The concatenation of two lists of sequences.
pub proof fn lemma_flat_add<T>(a: Seq<Seq<T>>, b: Seq<Seq<T>>)
    ensures
        flat(a + b) == flat(a) + flat(b),
    decreases b.len(),
{
    if b.len() == 0 {
        assert(a + b =~= a);
        assert(flat(a) + flat(b) =~= flat(a));
    } else {
        lemma_flat_add(a, b.drop_last());
        assert((a + b).drop_last() =~= a + b.drop_last());
        assert(flat(a) + flat(b.drop_last()) + b.last() =~= flat(a) + (flat(b.drop_last())
            + b.last()));
    }
}

/// The number of chunks of length `k`, the last perhaps shorter, that `n` elements make.
pub open spec fn chunk_count(n: int, k: int) -> int {
    (n + k - 1) / k
}

/// The end of the first `j` chunks of length `k`.
pub open spec fn chunk_end(n: int, k: int, j: int) -> int {
    if j * k <= n {
        j * k
    } else {
        n
    }
}

/// Chunk `j` of length `k`.
pub open spec fn chunk<T>(s: Seq<T>, k: int, j: int) -> Seq<T> {
    s.subrange(j * k, chunk_end(s.len() as int, k, j + 1))
}

/// Where chunks start and end.
pub proof fn lemma_chunk_bounds(n: int, k: int, j: int)
    requires
        n >= 0,
        k > 0,
        0 <= j < chunk_count(n, k),
    ensures
        0 <= j * k < n,
        j * k == chunk_end(n, k, j),
        j * k < chunk_end(n, k, j + 1) <= j * k + k,
        chunk_end(n, k, j + 1) <= n,
        chunk_end(n, k, j + 1) == n ==> j + 1 == chunk_count(n, k),
        chunk_end(n, k, j + 1) < n ==> j + 1 < chunk_count(n, k),
{
    let c = chunk_count(n, k);
    let r = (n + k - 1) % k;
    vstd::arithmetic::div_mod::lemma_fundamental_div_mod(n + k - 1, k);
    assert(0 <= j * k < n) by (nonlinear_arith)
        requires
            n + k - 1 == k * c + r,
            0 <= r < k,
            0 <= j <= c - 1,
            k > 0,
    ;
    assert((j + 1) * k == j * k + k) by (nonlinear_arith);
    if (j + 1) * k >= n {
        assert(c <= j + 1) by (nonlinear_arith)
            requires
                n + k - 1 == k * c + r,
                0 <= r < k,
                (j + 1) * k >= n,
                k > 0,
        ;
    } else {
        assert(c > j + 1) by (nonlinear_arith)
            requires
                n + k - 1 == k * c + r,
                0 <= r < k,
                (j + 1) * k < n,
                k > 0,
        ;
    }
}

/// All chunks together end where the sequence ends.
pub proof fn lemma_chunk_total(n: int, k: int)
    requires
        n >= 0,
        k > 0,
    ensures
        chunk_count(n, k) >= 0,
        chunk_count(n, k) <= n,
        n > 0 ==> chunk_count(n, k) > 0,
        k >= 2 && n >= 2 ==> chunk_count(n, k) < n,
        chunk_end(n, k, chunk_count(n, k)) == n,
        chunk_end(n, k, 0) == 0,
{
    let c = chunk_count(n, k);
    let r = (n + k - 1) % k;
    vstd::arithmetic::div_mod::lemma_fundamental_div_mod(n + k - 1, k);
    assert(c >= 0 && c <= n && (n > 0 ==> c > 0) && (k >= 2 && n >= 2 ==> c < n) && c * k >= n)
        by (nonlinear_arith)
        requires
            n + k - 1 == k * c + r,
            0 <= r < k,
            k > 0,
            n >= 0,
    ;
}

/// The chunks of a sequence are a partition of it, in order.
pub proof fn lemma_flat_chunks<T>(s: Seq<T>, k: int)
    requires
        k > 0,
    ensures
        flat(Seq::new(chunk_count(s.len() as int, k) as nat, |j: int| chunk(s, k, j))) == s,
{
    let n = s.len() as int;
    let c = chunk_count(n, k);
    let f = Seq::new(c as nat, |j: int| chunk(s, k, j));
    lemma_chunk_total(n, k);
    lemma_flat_chunks_upto(s, k, c);
    assert(f.take(c) =~= f);
    assert(s.take(n) =~= s);
}

/// The first chunks of a sequence.
proof fn lemma_flat_chunks_upto<T>(s: Seq<T>, k: int, j: int)
    requires
        k > 0,
        0 <= j <= chunk_count(s.len() as int, k),
    ensures
        flat(
            Seq::new(chunk_count(s.len() as int, k) as nat, |i: int| chunk(s, k, i)).take(j),
        ) == s.take(chunk_end(s.len() as int, k, j)),
    decreases j,
{
    let n = s.len() as int;
    let f = Seq::new(chunk_count(n, k) as nat, |i: int| chunk(s, k, i));
    if j > 0 {
        lemma_flat_chunks_upto(s, k, j - 1);
        lemma_flat_take(f, j - 1);
        lemma_chunk_bounds(n, k, j - 1);
        assert(s.take(chunk_end(n, k, j - 1)) + chunk(s, k, j - 1) =~= s.take(
            chunk_end(n, k, j),
        ));
    } else {
        lemma_chunk_total(n, k);
        assert(f.take(0) =~= Seq::empty());
        assert(s.take(0) =~= Seq::empty());
    }
}

/// Concatenating the concatenations of the chunks of a list gives the concatenation of
/// the list.
pub proof fn lemma_flat_flat_chunks<T>(s: Seq<Seq<T>>, k: int)
    requires
        k > 0,
    ensures
        flat(Seq::new(chunk_count(s.len() as int, k) as nat, |j: int| flat(chunk(s, k, j))))
            == flat(s),
{
    let n = s.len() as int;
    let c = chunk_count(n, k);
    let f = Seq::new(c as nat, |j: int| flat(chunk(s, k, j)));
    lemma_chunk_total(n, k);
    lemma_flat_flat_chunks_upto(s, k, c);
    assert(f.take(c) =~= f);
    assert(s.take(n) =~= s);
}

/// The first chunks of a list.
proof fn lemma_flat_flat_chunks_upto<T>(s: Seq<Seq<T>>, k: int, j: int)
    requires
        k > 0,
        0 <= j <= chunk_count(s.len() as int, k),
    ensures
        flat(
            Seq::new(
                chunk_count(s.len() as int, k) as nat,
                |i: int| flat(chunk(s, k, i)),
            ).take(j),
        ) == flat(s.take(chunk_end(s.len() as int, k, j))),
    decreases j,
{
    let n = s.len() as int;
    let f = Seq::new(chunk_count(n, k) as nat, |i: int| flat(chunk(s, k, i)));
    if j > 0 {
        lemma_flat_flat_chunks_upto(s, k, j - 1);
        lemma_flat_take(f, j - 1);
        lemma_chunk_bounds(n, k, j - 1);
        lemma_flat_add(s.take(chunk_end(n, k, j - 1)), chunk(s, k, j - 1));
        assert(s.take(chunk_end(n, k, j - 1)) + chunk(s, k, j - 1) =~= s.take(
            chunk_end(n, k, j),
        ));
    } else {
        lemma_chunk_total(n, k);
        assert(f.take(0) =~= Seq::empty());
        assert(s.take(0) =~= Seq::empty());
    }
}

/// The concatenation of single elements.
pub proof fn lemma_flat_singles<T>(s: Seq<T>)
    ensures
        flat(Seq::new(s.len(), |i: int| seq![s[i]])) == s,
    decreases s.len(),
{
    let a = Seq::new(s.len(), |i: int| seq![s[i]]);
    if s.len() > 0 {
        let t = s.drop_last();
        lemma_flat_singles(t);
        assert(a.drop_last() =~= Seq::new(t.len(), |i: int| seq![t[i]]));
        assert(t + seq![s.last()] =~= s);
    } else {
        assert(flat(a) =~= s);
    }
}

/// Every element of a concatenation is an element of one of the sequences.
pub proof fn lemma_flat_index<T>(s: Seq<Seq<T>>, i: int) -> (r: (int, int))
    requires
        0 <= i < flat(s).len(),
    ensures
        0 <= r.0 < s.len(),
        0 <= r.1 < s[r.0].len(),
        s[r.0][r.1] == flat(s)[i],
    decreases s.len(),
{
    let t = s.drop_last();
    if i < flat(t).len() {
        let r = lemma_flat_index(t, i);
        assert(t[r.0] == s[r.0]);
        r
    } else {
        (s.len() - 1, i - flat(t).len())
    }
}

} // verus!
