//! Workloads for demonstrations and measurements: codewords to prove, positions to open,
//! and the circuits that they need.

use crate::batch::{derived_challenges, prepare_batch};
use crate::code::{epoly, in_code, is_encoding};
use crate::commitment::{
    commit_codeword_with_tree_epl, commit_params, is_opening, leaf_digests, open_position_epl,
    MerkleTree,
};
use crate::ext::{embed, embed_seq, eseq, fseq};
use crate::field::{F, P as MODULUS};
use crate::hash::is_compression;
use crate::numeric::{next_pow2, next_power_of_two};
use crate::pipeline::{are_commitments, commit_all};
use crate::polynomial::{domain_element, domain_size, encoding, rs_encode};
use crate::types::{compute_evals_per_leaf, Batch, Codeword, Digest, Opening, MIN_EVALS_PER_LEAF};
use vstd::arithmetic::power2::{is_pow2, lemma2_to64, lemma_pow2_unfold, pow2};
use vstd::prelude::*;

verus! {

/// The constant codeword of a value.
pub open spec fn constant(value: int, n: nat) -> Seq<int> {
    Seq::new(n, |j: int| value % MODULUS as int)
}

/// Make constant codewords of consecutive values. They are codewords of every degree.
pub fn constant_codewords(first: usize, count: usize, codeword_len: usize) -> (r: Vec<Codeword>)
    requires
        first + count <= usize::MAX,
    ensures
        r@.len() == count,
        forall|i: int|
            0 <= i < count ==> (#[trigger] r@[i])@ == constant(first + i, codeword_len as nat),
        forall|i: int, j: int|
            0 <= i < count && 0 <= j < codeword_len ==> (#[trigger] r@[i]@[j]) == (first + i)
                % MODULUS as int,
{
    let mut out: Vec<Codeword> = Vec::new();
    let mut i: usize = 0;
    while i < count
        invariant
            i <= count,
            first + count <= usize::MAX,
            out@.len() == i,
            forall|k: int|
                0 <= k < i ==> (#[trigger] out@[k])@ == constant(first + k, codeword_len as nat),
        decreases count - i,
    {
        let c = F::from_usize(first + i);
        let evals = vec![c; codeword_len];
        assert(fseq(evals@) =~= constant(first + i, codeword_len as nat));
        out.push(Codeword::new(evals));
        i = i + 1;
    }
    out
}

/// The message of test codeword `i`.
pub open spec fn test_message(i: int, degree: nat) -> Seq<int> {
    Seq::new(degree, |j: int| ((i + 1) * (j + 1) + i * 7 + 3) % MODULUS as int)
}

/// Make the message of test codeword `i`.
fn make_message(i: usize, degree: usize) -> (r: Vec<F>)
    requires
        (i + 1) * degree + i * 7 + 3 <= usize::MAX,
    ensures
        fseq(r@) == test_message(i as int, degree as nat),
{
    let mut msg: Vec<F> = Vec::new();
    let mut j: usize = 0;
    while j < degree
        invariant
            j <= degree,
            (i + 1) * degree + i * 7 + 3 <= usize::MAX,
            msg@.len() == j,
            forall|k: int|
                0 <= k < j ==> (#[trigger] msg@[k])@ == ((i + 1) * (k + 1) + i * 7 + 3)
                    % MODULUS as int,
        decreases degree - j,
    {
        assert(i + 1 <= (i + 1) * (j + 1) <= (i + 1) * degree) by (nonlinear_arith)
            requires
                0 <= j < degree,
                0 <= i,
        ;
        let product: usize = (i + 1) * (j + 1);
        msg.push(F::from_usize(product + i * 7 + 3));
        j = j + 1;
    }
    assert(fseq(msg@) =~= test_message(i as int, degree as nat));
    msg
}

/// Make test codewords: encodings of messages of the given length.
pub fn make_codewords(total: usize, codeword_len: usize, degree: usize) -> (r: Vec<Codeword>)
    requires
        0 < degree < codeword_len,
        domain_size(codeword_len as int),
        total * degree + total * 7 + 3 <= usize::MAX,
    ensures
        r@.len() == total,
        forall|i: int|
            0 <= i < total ==> (#[trigger] r@[i])@ == encoding(
                test_message(i, degree as nat),
                codeword_len as int,
            ),
{
    let mut out: Vec<Codeword> = Vec::new();
    let mut i: usize = 0;
    while i < total
        invariant
            i <= total,
            0 < degree < codeword_len,
            domain_size(codeword_len as int),
            total * degree + total * 7 + 3 <= usize::MAX,
            out@.len() == i,
            forall|k: int|
                0 <= k < i ==> (#[trigger] out@[k])@ == encoding(
                    test_message(k, degree as nat),
                    codeword_len as int,
                ),
        decreases total - i,
    {
        assert((i + 1) * degree <= total * degree) by (nonlinear_arith)
            requires
                i + 1 <= total,
                degree > 0,
        ;
        let msg = make_message(i, degree);
        assert(fseq(msg@).len() == msg@.len());
        out.push(rs_encode(msg.as_slice(), codeword_len));
        i = i + 1;
    }
    out
}

/// The circuit's degree for messages of the given length: the next power of two, or half
/// the codeword length for constant codewords, which the length zero stands for.
pub open spec fn needed_degree(degree: int, codeword_len: int) -> int {
    if degree == 0 {
        codeword_len / 2
    } else {
        next_pow2(degree)
    }
}

/// Choose the circuit's degree.
pub fn circuit_degree(degree: usize, codeword_len: usize) -> (r: usize)
    requires
        next_pow2(degree as int) <= usize::MAX,
    ensures
        r == needed_degree(degree as int, codeword_len as int),
{
    if degree == 0 {
        codeword_len / 2
    } else {
        next_power_of_two(degree)
    }
}

/// The parameters that tell circuits apart: batch size, codeword length, evaluations per
/// leaf and degree.
pub type CircuitKey = (usize, usize, usize, usize);

/// The circuit that a workload needs.
pub fn circuit_key(
    num_codewords: usize,
    batch_size: usize,
    codeword_len: usize,
    degree: usize,
) -> (r: CircuitKey)
    requires
        next_pow2(degree as int) <= usize::MAX,
    ensures
        r.0 == (if batch_size <= num_codewords {
            batch_size
        } else {
            num_codewords
        }),
        r.1 == codeword_len,
        r.2 == (if codeword_len <= 128 {
            MIN_EVALS_PER_LEAF
        } else {
            64
        }),
        r.3 == needed_degree(degree as int, codeword_len as int),
{
    let used: usize = if batch_size <= num_codewords {
        batch_size
    } else {
        num_codewords
    };
    (used, codeword_len, compute_evals_per_leaf(codeword_len), circuit_degree(degree, codeword_len))
}

/// Add a key unless it is there.
pub fn add_key(keys: &mut Vec<CircuitKey>, key: CircuitKey)
    ensures
        final(keys)@ == (if old(keys)@.contains(key) {
            old(keys)@
        } else {
            old(keys)@.push(key)
        }),
{
    let mut i: usize = 0;
    while i < keys.len()
        invariant
            i <= keys@.len(),
            keys@ == old(keys)@,
            forall|k: int| 0 <= k < i ==> keys@[k] != key,
        decreases keys@.len() - i,
    {
        let other = keys[i];
        if other.0 == key.0 && other.1 == key.1 && other.2 == key.2 && other.3 == key.3 {
            assert(keys@[i as int] == key);
            return ;
        }
        i = i + 1;
    }
    keys.push(key);
}

/// Adding keys keeps them distinct.
pub proof fn lemma_add_key_distinct(keys: Seq<CircuitKey>, key: CircuitKey)
    requires
        keys.no_duplicates(),
    ensures
        (if keys.contains(key) {
            keys
        } else {
            keys.push(key)
        }).no_duplicates(),
{
}

/// The number of openings: as many as asked for, but no more than there are leaves.
pub open spec fn opening_count(num_openings: int, m: int, n: int, epl: int) -> int {
    if num_openings <= m * (n / epl) {
        num_openings
    } else {
        m * (n / epl)
    }
}

/// Choose codewords and positions to open: the codewords in turn, at positions that are
/// spread out.
pub fn opening_schedule(
    num_openings: usize,
    num_codewords: usize,
    codeword_len: usize,
    epl: usize,
) -> (r: Vec<(usize, usize)>)
    requires
        num_codewords > 0,
        codeword_len > 0,
        epl > 0,
        num_codewords * (codeword_len as int / epl as int) <= usize::MAX,
        7 * opening_count(
            num_openings as int,
            num_codewords as int,
            codeword_len as int,
            epl as int,
        ) <= usize::MAX,
    ensures
        r@.len() == opening_count(
            num_openings as int,
            num_codewords as int,
            codeword_len as int,
            epl as int,
        ),
        forall|i: int|
            0 <= i < r@.len() ==> (#[trigger] r@[i]).0 == i % num_codewords as int && r@[i].1 == (
            i * 7) % codeword_len as int,
        forall|i: int|
            0 <= i < r@.len() ==> (#[trigger] r@[i]).0 < num_codewords && r@[i].1 < codeword_len,
        r@.len() > 0 ==> r@[0].0 == 0 && r@[0].1 == 0,
        forall|i: int|
            0 < i < r@.len() ==> (#[trigger] r@[i]).0 == (r@[i - 1].0 + 1) % num_codewords as int
                && r@[i].1 == (r@[i - 1].1 + 7) % codeword_len as int,
{
    let leaves: usize = num_codewords * (codeword_len / epl);
    let count: usize = if num_openings <= leaves {
        num_openings
    } else {
        leaves
    };
    let mut out: Vec<(usize, usize)> = Vec::new();
    let mut i: usize = 0;
    while i < count
        invariant
            i <= count,
            num_codewords > 0,
            codeword_len > 0,
            7 * count <= usize::MAX,
            out@.len() == i,
            forall|k: int|
                0 <= k < i ==> (#[trigger] out@[k]).0 == k % num_codewords as int && out@[k].1 == (
                k * 7) % codeword_len as int,
        decreases count - i,
    {
        out.push((i % num_codewords, (i * 7) % codeword_len));
        i = i + 1;
    }
    proof {
        let (m, n) = (num_codewords as int, codeword_len as int);
        assert forall|k: int| 0 < k < out@.len() implies (#[trigger] out@[k]).0 == (out@[k - 1].0
            + 1) % m && out@[k].1 == (out@[k - 1].1 + 7) % n by {
            vstd::arithmetic::div_mod::lemma_add_mod_noop(k - 1, 1, m);
            vstd::arithmetic::div_mod::lemma_add_mod_noop((k - 1) * 7, 7, n);
            vstd::arithmetic::div_mod::lemma_add_mod_noop((k - 1) % m, 1, m);
            vstd::arithmetic::div_mod::lemma_add_mod_noop(((k - 1) * 7) % n, 7, n);
            vstd::arithmetic::div_mod::lemma_mod_twice(k - 1, m);
            vstd::arithmetic::div_mod::lemma_mod_twice((k - 1) * 7, n);
        }
    }
    out
}

/// Commit to all codewords and keep the trees.
pub fn commit_trees<H: Fn(Digest, Digest) -> Digest>(
    h: &H,
    codewords: &Vec<Codeword>,
    epl: usize,
) -> (r: Vec<MerkleTree>)
    requires
        is_compression(*h),
        forall|i: int|
            0 <= i < codewords@.len() ==> commit_params(
                (#[trigger] codewords@[i])@.len() as int,
                epl as int,
            ),
    ensures
        r@.len() == codewords@.len(),
        forall|i: int|
            0 <= i < r@.len() ==> (#[trigger] r@[i]).is_tree(
                *h,
                leaf_digests(*h, codewords@[i]@, epl as int),
            ) && r@[i].has_paths(codewords@[i]@.len() as int / epl as int),
{
    let mut out: Vec<MerkleTree> = Vec::new();
    let mut i: usize = 0;
    while i < codewords.len()
        invariant
            is_compression(*h),
            forall|i: int|
                0 <= i < codewords@.len() ==> commit_params(
                    (#[trigger] codewords@[i])@.len() as int,
                    epl as int,
                ),
            i <= codewords@.len(),
            out@.len() == i,
            forall|k: int|
                0 <= k < i ==> (#[trigger] out@[k]).is_tree(
                    *h,
                    leaf_digests(*h, codewords@[k]@, epl as int),
                ) && out@[k].has_paths(codewords@[k]@.len() as int / epl as int),
        decreases codewords@.len() - i,
    {
        let (_, tree) = commit_codeword_with_tree_epl(h, &codewords[i], epl);
        out.push(tree);
        i = i + 1;
    }
    out
}

/// Open codewords at the scheduled positions.
pub fn open_scheduled(
    codewords: &Vec<Codeword>,
    trees: &Vec<MerkleTree>,
    schedule: &Vec<(usize, usize)>,
    epl: usize,
) -> (r: Vec<(usize, Opening)>)
    requires
        epl > 0,
        trees@.len() == codewords@.len(),
        forall|i: int|
            0 <= i < codewords@.len() ==> (#[trigger] codewords@[i])@.len() as int % epl as int
                == 0 && trees@[i].has_paths(codewords@[i]@.len() as int / epl as int),
        forall|i: int|
            0 <= i < schedule@.len() ==> (#[trigger] schedule@[i]).0 < codewords@.len()
                && schedule@[i].1 < codewords@[schedule@[i].0 as int]@.len(),
    ensures
        r@.len() == schedule@.len(),
        forall|i: int|
            0 <= i < r@.len() ==> (#[trigger] r@[i]).0 == schedule@[i].0 && is_opening(
                r@[i].1,
                codewords@[schedule@[i].0 as int]@,
                trees@[schedule@[i].0 as int]@,
                schedule@[i].1 as int,
                epl as int,
            ),
{
    let mut out: Vec<(usize, Opening)> = Vec::new();
    let mut i: usize = 0;
    while i < schedule.len()
        invariant
            epl > 0,
            trees@.len() == codewords@.len(),
            forall|i: int|
                0 <= i < codewords@.len() ==> (#[trigger] codewords@[i])@.len() as int
                    % epl as int == 0 && trees@[i].has_paths(
                    codewords@[i]@.len() as int / epl as int,
                ),
            forall|i: int|
                0 <= i < schedule@.len() ==> (#[trigger] schedule@[i]).0 < codewords@.len()
                    && schedule@[i].1 < codewords@[schedule@[i].0 as int]@.len(),
            i <= schedule@.len(),
            out@.len() == i,
            forall|k: int|
                0 <= k < i ==> (#[trigger] out@[k]).0 == schedule@[k].0 && is_opening(
                    out@[k].1,
                    codewords@[schedule@[k].0 as int]@,
                    trees@[schedule@[k].0 as int]@,
                    schedule@[k].1 as int,
                    epl as int,
                ),
        decreases schedule@.len() - i,
    {
        let (index, position) = schedule[i];
        assert(schedule@[i as int].0 == index && schedule@[i as int].1 == position);
        let opening = open_position_epl(&codewords[index], &trees[index], position, epl);
        out.push((index, opening));
        i = i + 1;
    }
    out
}

/// Make a batch of codewords and commit to them.
pub fn commit_batch<H: Fn(Digest, Digest) -> Digest>(
    h: &H,
    codewords: Vec<Codeword>,
    start: usize,
    epl: usize,
) -> (r: Batch)
    requires
        is_compression(*h),
        start + codewords@.len() <= usize::MAX,
        forall|i: int|
            0 <= i < codewords@.len() ==> commit_params(
                (#[trigger] codewords@[i])@.len() as int,
                epl as int,
            ),
    ensures
        r.indices@.len() == codewords@.len(),
        forall|i: int| 0 <= i < r.indices@.len() ==> (#[trigger] r.indices@[i]) == start + i,
        r.codewords@ == codewords@,
        are_commitments(*h, codewords@, epl as int, r.commitments@),
        eseq(r.challenges@) == derived_challenges(r.commitments@),
{
    let commitments = commit_all(h, &codewords, epl);
    let mut indices: Vec<usize> = Vec::new();
    let mut i: usize = 0;
    while i < codewords.len()
        invariant
            i <= codewords@.len(),
            start + codewords@.len() <= usize::MAX,
            indices@.len() == i,
            forall|k: int| 0 <= k < i ==> (#[trigger] indices@[k]) == start + k,
        decreases codewords@.len() - i,
    {
        indices.push(start + i);
        i = i + 1;
    }
    prepare_batch(indices, codewords, commitments)
}

/// A constant codeword is the encoding of a message of one element.
pub proof fn lemma_constant_in_code(value: int, n: nat)
    ensures
        in_code(embed_seq(constant(value, n)), n as int, 1),
{
    let v = embed_seq(constant(value, n));
    let e = embed(value % MODULUS as int);
    let c = seq![e];
    assert forall|i: int| 0 <= i < n implies #[trigger] v[i] == epoly(
        c,
        domain_element(n as int, i),
    ) by {
        let x = domain_element(n as int, i);
        assert(c.drop_first().len() == 0);
        assert(epoly(c.drop_first(), x) == embed(0));
        crate::ext::lemma_escale_embed_zero(x);
        crate::ext::lemma_eadd_zero(e);
    }
    assert(is_encoding(v, c, n as int));
}

/// The messages of test codewords are arithmetic progressions: that of codeword `i` starts at
/// `8 i + 4` and goes up by `i + 1`.
pub proof fn lemma_test_message_steps(i: int, degree: nat, j: int)
    requires
        i >= 0,
        0 <= j < degree,
    ensures
        test_message(i, degree).len() == degree,
        test_message(i, degree)[0] == (8 * i + 4) % MODULUS as int,
        j > 0 ==> test_message(i, degree)[j] == (test_message(i, degree)[j - 1] + i + 1)
            % MODULUS as int,
{
    assert((i + 1) * (0 + 1) + i * 7 + 3 == 8 * i + 4) by (nonlinear_arith);
    let x = (i + 1) * j + i * 7 + 3;
    assert((i + 1) * (j + 1) + i * 7 + 3 == x + (i + 1)) by (nonlinear_arith)
        requires
            x == (i + 1) * j + i * 7 + 3,
    ;
    let p = MODULUS as int;
    vstd::arithmetic::div_mod::lemma_add_mod_noop(x, i + 1, p);
    vstd::arithmetic::div_mod::lemma_add_mod_noop(x % p, i + 1, p);
    vstd::arithmetic::div_mod::lemma_mod_twice(x, p);
    if j > 0 {
        assert((i + 1) * ((j - 1) + 1) == (i + 1) * j);
    }
}

/// The circuit's degree is a power of two that is at least the length of the messages and less
/// than twice it.
pub proof fn lemma_needed_degree(degree: int, codeword_len: int)
    requires
        degree > 0,
    ensures
        is_pow2(needed_degree(degree, codeword_len)),
        degree <= needed_degree(degree, codeword_len) < 2 * degree,
{
    let e = crate::numeric::log2_ceil(degree);
    crate::numeric::lemma_log2_ceil(degree);
    crate::numeric::lemma_log2_pow2(e);
    if e > 0 {
        let d = (e - 1) as nat;
        lemma_pow2_unfold(e);
        if degree <= pow2(d) {
            assert(crate::numeric::log2_ceil(degree) <= d);
        }
    } else {
        lemma2_to64();
    }
}

/// As many openings are made as asked for, unless there are fewer leaves.
pub proof fn lemma_opening_count(num_openings: int, m: int, n: int, epl: int)
    ensures
        ({
            let r = opening_count(num_openings, m, n, epl);
            &&& r <= num_openings
            &&& r <= m * (n / epl)
            &&& r == num_openings || r == m * (n / epl)
        }),
{
}

/// For constant codewords the circuit's degree is half the codeword length.
pub proof fn lemma_constant_degree(codeword_len: int)
    ensures
        2 * needed_degree(0, codeword_len) <= codeword_len < 2 * needed_degree(0, codeword_len) + 2,
{
}

} // verus!
