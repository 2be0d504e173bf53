//! Decimal numbers, bracketed lists, and tables of template replacements.

use crate::slices::{flat, lemma_flat_take};
use vstd::prelude::*;

verus! {

/// The text of a decimal digit.
pub open spec fn digit(d: int) -> Seq<char> {
    if d == 0 {
        "0"@
    } else if d == 1 {
        "1"@
    } else if d == 2 {
        "2"@
    } else if d == 3 {
        "3"@
    } else if d == 4 {
        "4"@
    } else if d == 5 {
        "5"@
    } else if d == 6 {
        "6"@
    } else if d == 7 {
        "7"@
    } else if d == 8 {
        "8"@
    } else {
        "9"@
    }
}

/// A number in decimal.
pub open spec fn decimal(n: int) -> Seq<char>
    decreases n,
{
    if n < 10 {
        digit(n)
    } else {
        decimal(n / 10) + digit(n % 10)
    }
}

/// The text of a decimal digit.
fn digit_text(d: u64) -> (r: &'static str)
    requires
        d < 10,
    ensures
        r@ == digit(d as int),
{
    if d == 0 {
        "0"
    } else if d == 1 {
        "1"
    } else if d == 2 {
        "2"
    } else if d == 3 {
        "3"
    } else if d == 4 {
        "4"
    } else if d == 5 {
        "5"
    } else if d == 6 {
        "6"
    } else if d == 7 {
        "7"
    } else if d == 8 {
        "8"
    } else {
        "9"
    }
}

/// A number in decimal.
pub fn decimal_u64(n: u64) -> (r: String)
    ensures
        r@ == decimal(n as int),
    decreases n,
{
    if n < 10 {
        String::from_str(digit_text(n))
    } else {
        let mut s = decimal_u64(n / 10);
        s.append(digit_text(n % 10));
        s
    }
}

/// A number in decimal.
pub fn decimal_usize(n: usize) -> (r: String)
    ensures
        r@ == decimal(n as int),
{
    decimal_u64(n as u64)
}

/// The texts of strings.
pub open spec fn texts(s: Seq<String>) -> Seq<Seq<char>> {
    Seq::new(s.len(), |i: int| s[i]@)
}

/// The decimals of numbers.
pub open spec fn decimals(s: Seq<usize>) -> Seq<Seq<char>> {
    Seq::new(s.len(), |i: int| decimal(s[i] as int))
}

/// Items separated by a comma and a space.
pub open spec fn joined(items: Seq<Seq<char>>) -> Seq<char>
    decreases items.len(),
{
    if items.len() == 0 {
        Seq::empty()
    } else if items.len() == 1 {
        items[0]
    } else {
        joined(items.drop_last()) + ", "@ + items.last()
    }
}

/// A bracketed list of items.
pub open spec fn bracketed(items: Seq<Seq<char>>) -> Seq<char> {
    "["@ + joined(items) + "]"@
}

/// Build a bracketed list.
pub fn bracket(items: &Vec<String>) -> (r: String)
    ensures
        r@ == bracketed(texts(items@)),
{
    let n: usize = items.len();
    let ghost v = texts(items@);
    let mut s = String::from_str("[");
    let mut i: usize = 0;
    assert(v.take(0).len() == 0);
    assert("["@ + joined(v.take(0)) =~= "["@);
    while i < n
        invariant
            i <= n == items@.len(),
            v == texts(items@),
            s@ == "["@ + joined(v.take(i as int)),
        decreases n - i,
    {
        if i > 0 {
            s.append(", ");
        }
        s.append(items[i].as_str());
        proof {
            let w = v.take(i + 1);
            assert(w.drop_last() =~= v.take(i as int));
            if i == 0 {
                assert("["@ + joined(v.take(0)) + w[0] =~= "["@ + w[0]);
            } else {
                assert("["@ + joined(v.take(i as int)) + ", "@ + v[i as int] =~= "["@ + (joined(
                    v.take(i as int),
                ) + ", "@ + v[i as int]));
            }
        }
        i = i + 1;
    }
    assert(v.take(n as int) =~= v);
    s.append("]");
    s
}

/// Build a bracketed list of numbers.
pub fn bracket_numbers(items: &Vec<usize>) -> (r: String)
    ensures
        r@ == bracketed(decimals(items@)),
{
    let n: usize = items.len();
    let mut out: Vec<String> = Vec::with_capacity(n);
    let mut i: usize = 0;
    while i < n
        invariant
            i <= n == items@.len(),
            out@.len() == i,
            forall|j: int| 0 <= j < i ==> (#[trigger] out@[j])@ == decimal(items@[j] as int),
        decreases n - i,
    {
        out.push(decimal_usize(items[i]));
        i = i + 1;
    }
    assert(texts(out@) =~= decimals(items@));
    bracket(&out)
}

/// The texts of string slices.
pub open spec fn parts_text(parts: Seq<&str>) -> Seq<Seq<char>> {
    Seq::new(parts.len(), |i: int| parts[i]@)
}

/// Append pieces of text.
pub fn append_parts(s: &mut String, parts: &Vec<&str>)
    ensures
        final(s)@ == old(s)@ + flat(parts_text(parts@)),
{
    let n: usize = parts.len();
    let ghost before = s@;
    let ghost v = parts_text(parts@);
    let mut i: usize = 0;
    assert(v.take(0).len() == 0);
    assert(before + flat(v.take(0)) =~= before);
    while i < n
        invariant
            i <= n == parts@.len(),
            v == parts_text(parts@),
            s@ == before + flat(v.take(i as int)),
        decreases n - i,
    {
        s.append(parts[i]);
        proof {
            lemma_flat_take(v, i as int);
            assert(before + flat(v.take(i as int)) + v[i as int] =~= before + (flat(
                v.take(i as int),
            ) + v[i as int]));
        }
        i = i + 1;
    }
    assert(v.take(n as int) =~= v);
}

/// A table from keys to values, each key at most once.
#[derive(Debug)]
pub struct Replacements {
    pub entries: Vec<(String, String)>,
}

/// The position of a key.
pub open spec fn has_key(entries: Seq<(String, String)>, key: Seq<char>, i: int) -> bool {
    0 <= i < entries.len() && entries[i].0@ == key
}

impl View for Replacements {
    type V = Map<Seq<char>, Seq<char>>;

    open spec fn view(&self) -> Map<Seq<char>, Seq<char>> {
        Map::new(
            |key: Seq<char>| exists|i: int| has_key(self.entries@, key, i),
            |key: Seq<char>|
                self.entries@[choose|i: int| has_key(self.entries@, key, i)].1@,
        )
    }
}

impl Replacements {
    /// No key occurs twice.
    pub open spec fn wf(&self) -> bool {
        forall|i: int, j: int|
            0 <= i < j < self.entries@.len() ==> (#[trigger] self.entries@[i]).0@ != (
            #[trigger] self.entries@[j]).0@
    }

    pub fn new() -> (r: Self)
        ensures
            r.wf(),
            r@ == Map::<Seq<char>, Seq<char>>::empty(),
    {
        let r = Replacements { entries: Vec::new() };
        assert(r@ =~= Map::<Seq<char>, Seq<char>>::empty());
        r
    }

    /// The entry at a position gives the value of its key.
    proof fn lemma_entry(&self, i: int)
        requires
            self.wf(),
            0 <= i < self.entries@.len(),
        ensures
            self@.dom().contains(self.entries@[i].0@),
            self@[self.entries@[i].0@] == self.entries@[i].1@,
    {
        let key = self.entries@[i].0@;
        assert(has_key(self.entries@, key, i));
        let c = choose|c: int| has_key(self.entries@, key, c);
        assert(has_key(self.entries@, key, c));
        if c < i {
            assert(self.entries@[c].0@ != self.entries@[i].0@);
        } else if i < c {
            assert(self.entries@[i].0@ != self.entries@[c].0@);
        }
    }

    /// Set the value of a key.
    pub fn insert(&mut self, key: &str, value: String)
        requires
            old(self).wf(),
        ensures
            final(self).wf(),
            final(self)@ == old(self)@.insert(key@, value@),
    {
        let n: usize = self.entries.len();
        let name = String::from_str(key);
        let mut i: usize = 0;
        let ghost before = *self;
        while i < n
            invariant_except_break
                n == self.entries@.len(),
                *self == before,
                name@ == key@,
                forall|j: int| 0 <= j < i ==> (#[trigger] self.entries@[j]).0@ != key@,
            invariant
                i <= n,
            ensures
                *self == before,
                n == self.entries@.len(),
                i < n ==> self.entries@[i as int].0@ == key@,
                i == n ==> forall|j: int| 0 <= j < n ==> (#[trigger] self.entries@[j]).0@ != key@,
            decreases n - i,
        {
            if self.entries[i].0 == name {
                break;
            }
            i = i + 1;
        }
        let ghost val = value@;
        if i < n {
            self.entries.set(i, (name, value));
        } else {
            self.entries.push((name, value));
        }
        proof {
            let old_entries = before.entries@;
            let entries = self.entries@;
            assert(self.wf());
            let want = before@.insert(key@, val);
            assert forall|k: Seq<char>| self@.dom().contains(k) == want.dom().contains(k) by {
                if self@.dom().contains(k) && k != key@ {
                    let c = choose|c: int| has_key(entries, k, c);
                    assert(has_key(old_entries, k, c));
                }
                if want.dom().contains(k) {
                    if k == key@ {
                        assert(has_key(entries, k, i as int));
                    } else {
                        let c = choose|c: int| has_key(old_entries, k, c);
                        assert(has_key(entries, k, c));
                    }
                }
            }
            assert forall|k: Seq<char>| self@.dom().contains(k) implies self@[k] == want[k] by {
                let c = choose|c: int| has_key(entries, k, c);
                self.lemma_entry(c);
                if k != key@ {
                    before.lemma_entry(c);
                } else {
                    self.lemma_entry(i as int);
                }
            }
            assert(self@ =~= want);
        }
    }

    /// The value of a key.
    pub fn get(&self, key: &str) -> (r: Option<&String>)
        requires
            self.wf(),
        ensures
            r is Some <==> self@.dom().contains(key@),
            r is Some ==> r->0@ == self@[key@],
    {
        let n: usize = self.entries.len();
        let name = String::from_str(key);
        let mut i: usize = 0;
        while i < n
            invariant
                self.wf(),
                i <= n == self.entries@.len(),
                name@ == key@,
                forall|j: int| 0 <= j < i ==> (#[trigger] self.entries@[j]).0@ != key@,
            decreases n - i,
        {
            if self.entries[i].0 == name {
                proof {
                    self.lemma_entry(i as int);
                }
                return Some(&self.entries[i].1);
            }
            i = i + 1;
        }
        proof {
            if self@.dom().contains(key@) {
                let c = choose|c: int| has_key(self.entries@, key@, c);
                assert(has_key(self.entries@, key@, c));
            }
        }
        None
    }
}

} // verus!
