//! Reading decimal numbers and bracketed lists gives back what was written.

use crate::text::{bracketed, decimal, decimals, digit, joined};
use vstd::prelude::*;

verus! {

/// The value of a decimal digit.
pub open spec fn digit_value(c: char) -> int {
    c as int - '0' as int
}

/// The character is a decimal digit.
pub open spec fn is_digit(c: char) -> bool {
    0 <= digit_value(c) < 10
}

/// The text consists of decimal digits.
pub open spec fn all_digits(s: Seq<char>) -> bool {
    forall|i: int| 0 <= i < s.len() ==> is_digit(#[trigger] s[i])
}

/// The number that a text of decimal digits stands for.
pub open spec fn number(s: Seq<char>) -> int
    decreases s.len(),
{
    if s.len() == 0 {
        0
    } else {
        10 * number(s.drop_last()) + digit_value(s.last())
    }
}

/// The text of a digit is that digit.
proof fn lemma_digit(d: int)
    requires
        0 <= d < 10,
    ensures
        digit(d).len() == 1,
        digit_value(digit(d)[0]) == d,
{
    reveal_strlit("0");
    reveal_strlit("1");
    reveal_strlit("2");
    reveal_strlit("3");
    reveal_strlit("4");
    reveal_strlit("5");
    reveal_strlit("6");
    reveal_strlit("7");
    reveal_strlit("8");
    reveal_strlit("9");
}

/// Reading a decimal gives back the number. It consists of digits, and starts with a zero
/// only for zero itself.
pub proof fn lemma_decimal_reads_back(n: int)
    requires
        n >= 0,
    ensures
        number(decimal(n)) == n,
        all_digits(decimal(n)),
        decimal(n).len() > 0,
        n > 0 ==> digit_value(decimal(n)[0]) != 0,
        n == 0 ==> decimal(n).len() == 1,
    decreases n,
{
    let s = decimal(n);
    lemma_digit(n % 10);
    if n < 10 {
        assert(number(s.drop_last()) == 0) by {
            assert(s.drop_last().len() == 0);
        }
    } else {
        lemma_decimal_reads_back(n / 10);
        assert(s.drop_last() =~= decimal(n / 10));
        assert forall|i: int| 0 <= i < s.len() implies is_digit(#[trigger] s[i]) by {
            if i < s.len() - 1 {
                assert(s[i] == decimal(n / 10)[i]);
            }
        }
        assert(s[0] == decimal(n / 10)[0]);
    }
}

/// Different numbers have different texts.
pub proof fn lemma_decimal_injective(a: int, b: int)
    requires
        a >= 0,
        b >= 0,
        decimal(a) == decimal(b),
    ensures
        a == b,
{
    lemma_decimal_reads_back(a);
    lemma_decimal_reads_back(b);
}

// Lists.

/// The number of brackets that are open at the end of a text.
pub open spec fn depth(s: Seq<char>) -> int
    decreases s.len(),
{
    if s.len() == 0 {
        0
    } else {
        depth(s.drop_last()) + (if s.last() == '[' {
            1int
        } else if s.last() == ']' {
            -1int
        } else {
            0int
        })
    }
}

/// A text that can be an item of a list: not empty, with brackets that match, and commas
/// within brackets only.
pub open spec fn is_item(s: Seq<char>) -> bool {
    &&& s.len() > 0
    &&& depth(s) == 0
    &&& forall|i: int| 0 <= i < s.len() ==> #[trigger] depth(s.take(i)) >= 0
    &&& forall|i: int| 0 <= i < s.len() && #[trigger] s[i] == ',' ==> depth(s.take(i)) > 0
}

/// The texts between the commas that stand in no bracket.
pub open spec fn cut(s: Seq<char>) -> Seq<Seq<char>>
    decreases s.len(),
{
    if s.len() == 0 {
        seq![Seq::empty()]
    } else {
        let f = cut(s.drop_last());
        if s.last() == ',' && depth(s.drop_last()) == 0 {
            f.push(Seq::empty())
        } else {
            f.drop_last().push(f.last().push(s.last()))
        }
    }
}

/// The items of a bracketed list: what stands between its commas, without the space that
/// follows a comma.
pub open spec fn list_items(s: Seq<char>) -> Seq<Seq<char>> {
    let inner = s.subrange(1, s.len() - 1);
    if inner.len() == 0 {
        Seq::empty()
    } else {
        Seq::new(
            cut(inner).len(),
            |i: int| if i == 0 {
                cut(inner)[0]
            } else {
                cut(inner)[i].skip(1)
            },
        )
    }
}

/// One character.
proof fn lemma_depth_one(c: char)
    ensures
        depth(seq![c]) == (if c == '[' {
            1int
        } else if c == ']' {
            -1int
        } else {
            0int
        }),
{
    reveal_with_fuel(depth, 2);
    assert(seq![c].drop_last().len() == 0);
}

proof fn lemma_depth_add(a: Seq<char>, b: Seq<char>)
    ensures
        depth(a + b) == depth(a) + depth(b),
    decreases b.len(),
{
    if b.len() == 0 {
        assert(a + b =~= a);
    } else {
        lemma_depth_add(a, b.drop_last());
        assert((a + b).drop_last() =~= a + b.drop_last());
        assert((a + b).last() == b.last());
    }
}

/// There is always a last piece.
proof fn lemma_cut_len(s: Seq<char>)
    ensures
        cut(s).len() > 0,
    decreases s.len(),
{
    if s.len() > 0 {
        lemma_cut_len(s.drop_last());
    }
}

/// Text without a comma outside brackets goes to the last piece.
proof fn lemma_cut_append(a: Seq<char>, b: Seq<char>)
    requires
        depth(a) == 0,
        forall|i: int| 0 <= i < b.len() && #[trigger] b[i] == ',' ==> depth(b.take(i)) > 0,
    ensures
        cut(a + b) == cut(a).drop_last().push(cut(a).last() + b),
    decreases b.len(),
{
    lemma_cut_len(a);
    if b.len() == 0 {
        assert(a + b =~= a);
        assert(cut(a).last() + b =~= cut(a).last());
        assert(cut(a) =~= cut(a).drop_last().push(cut(a).last()));
    } else {
        let c = b.drop_last();
        assert forall|i: int| 0 <= i < c.len() && #[trigger] c[i] == ',' implies depth(c.take(i))
            > 0 by {
            assert(b[i] == ',');
            assert(c.take(i) =~= b.take(i));
        }
        lemma_cut_append(a, c);
        assert((a + b).drop_last() =~= a + c);
        assert((a + b).last() == b.last());
        lemma_depth_add(a, c);
        assert(b.take(b.len() - 1) =~= c);
        if b.last() == ',' {
            assert(b[b.len() - 1] == ',');
        }
        let f = cut(a + c);
        assert(f.drop_last() =~= cut(a).drop_last());
        assert(f.last().push(b.last()) =~= cut(a).last() + b);
    }
}

/// The pieces of joined items: the first item, and the others after a space.
proof fn lemma_cut_joined(items: Seq<Seq<char>>)
    requires
        items.len() > 0,
        forall|i: int| 0 <= i < items.len() ==> is_item(#[trigger] items[i]),
    ensures
        cut(joined(items)).len() == items.len(),
        cut(joined(items))[0] == items[0],
        forall|i: int|
            0 < i < items.len() ==> (#[trigger] cut(joined(items))[i]).skip(1) == items[i],
        depth(joined(items)) == 0,
        joined(items).len() > 0,
    decreases items.len(),
{
    let last = items.last();
    assert(is_item(last));
    let none = Seq::<char>::empty();
    if items.len() == 1 {
        lemma_cut_append(none, items[0]);
        assert(none + items[0] =~= items[0]);
        assert(cut(none).last() + items[0] =~= items[0]);
    } else {
        let d = items.drop_last();
        assert forall|i: int| 0 <= i < d.len() implies is_item(#[trigger] d[i]) by {
            assert(d[i] == items[i]);
        }
        lemma_cut_joined(d);
        let a = joined(d);
        reveal_strlit(", ");
        let comma = seq![','];
        let b = seq![' '] + last;
        assert(a + ", "@ + last =~= a + comma + b);
        assert((a + comma).drop_last() =~= a);
        assert(cut(a + comma) == cut(a).push(none));
        lemma_depth_one(',');
        lemma_depth_one(' ');
        lemma_depth_add(a, comma);
        assert forall|i: int| 0 <= i < b.len() && #[trigger] b[i] == ',' implies depth(b.take(i))
            > 0 by {
            assert(last[i - 1] == ',');
            assert(b.take(i) =~= seq![' '] + last.take(i - 1));
            lemma_depth_add(seq![' '], last.take(i - 1));
        }
        lemma_cut_append(a + comma, b);
        lemma_depth_add(a + comma, b);
        lemma_depth_add(seq![' '], last);
        let f = cut(joined(items));
        assert(f =~= cut(a).push(b)) by {
            assert(none + b =~= b);
            assert(cut(a).push(none).drop_last() =~= cut(a));
        }
        assert forall|i: int| 0 < i < items.len() implies (#[trigger] f[i]).skip(1) == items[i] by {
            if i < items.len() - 1 {
                assert(cut(a)[i].skip(1) == d[i]);
            } else {
                assert(b.skip(1) =~= last);
            }
        }
    }
}

/// Reading a bracketed list gives back its items.
pub proof fn lemma_list_reads_back(items: Seq<Seq<char>>)
    requires
        forall|i: int| 0 <= i < items.len() ==> is_item(#[trigger] items[i]),
    ensures
        list_items(bracketed(items)) == items,
{
    reveal_strlit("[");
    reveal_strlit("]");
    let s = bracketed(items);
    assert(s.subrange(1, s.len() - 1) =~= joined(items));
    if items.len() > 0 {
        lemma_cut_joined(items);
    }
    assert(list_items(s) =~= items);
}

/// A bracketed list can be an item itself.
pub proof fn lemma_list_is_item(items: Seq<Seq<char>>)
    requires
        forall|i: int| 0 <= i < items.len() ==> is_item(#[trigger] items[i]),
    ensures
        is_item(bracketed(items)),
{
    reveal_strlit("[");
    reveal_strlit("]");
    let s = bracketed(items);
    let j = joined(items);
    let (o, c) = (seq!['['], seq![']']);
    assert(s =~= o + j + c);
    lemma_depth_one('[');
    lemma_depth_one(']');
    lemma_joined_depth(items);
    lemma_depth_add(o, j);
    lemma_depth_add(o + j, c);
    assert forall|i: int| 0 <= i < s.len() implies #[trigger] depth(s.take(i)) >= 0 && (i > 0
        ==> depth(s.take(i)) > 0) by {
        if i > 0 {
            assert(s.take(i) =~= o + j.take(i - 1));
            lemma_depth_add(o, j.take(i - 1));
        }
    }
    assert(s[0] == '[');
    assert forall|i: int| 0 <= i < s.len() && #[trigger] s[i] == ',' implies depth(s.take(i))
        > 0 by {}
}

/// Every prefix of joined items has at least as many opening brackets as closing ones.
proof fn lemma_joined_depth(items: Seq<Seq<char>>)
    requires
        forall|i: int| 0 <= i < items.len() ==> is_item(#[trigger] items[i]),
    ensures
        depth(joined(items)) == 0,
        forall|i: int| 0 <= i <= joined(items).len() ==> #[trigger] depth(joined(items).take(i)) >= 0,
    decreases items.len(),
{
    let j = joined(items);
    if items.len() > 0 {
        let last = items.last();
        assert(is_item(last));
        assert(last.take(last.len() as int) =~= last);
        if items.len() == 1 {
            assert(j == last);
        } else {
            let d = items.drop_last();
            assert forall|i: int| 0 <= i < d.len() implies is_item(#[trigger] d[i]) by {
                assert(d[i] == items[i]);
            }
            lemma_joined_depth(d);
            reveal_strlit(", ");
            let a = joined(d);
            let sep = ", "@;
            assert(sep.drop_last() =~= seq![',']);
            lemma_depth_one(',');
            assert(depth(sep) == 0);
            lemma_depth_add(a, sep);
            lemma_depth_add(a + sep, last);
            assert forall|i: int| 0 <= i <= j.len() implies #[trigger] depth(j.take(i)) >= 0 by {
                if i <= a.len() {
                    assert(j.take(i) =~= a.take(i));
                } else if i <= a.len() + 2 {
                    let k = i - a.len();
                    assert(j.take(i) =~= a + sep.take(k));
                    lemma_depth_add(a, sep.take(k));
                    if k == 1 {
                        assert(sep.take(1) =~= seq![',']);
                    } else {
                        assert(sep.take(2) =~= sep);
                    }
                } else {
                    let k = i - a.len() - 2;
                    assert(j.take(i) =~= a + sep + last.take(k));
                    lemma_depth_add(a + sep, last.take(k));
                }
            }
        }
    } else {
        assert forall|i: int| 0 <= i <= j.len() implies #[trigger] depth(j.take(i)) >= 0 by {
            assert(j.take(i).len() == 0);
        }
    }
}

/// A text of digits has no brackets.
proof fn lemma_digits_depth(s: Seq<char>)
    requires
        all_digits(s),
    ensures
        depth(s) == 0,
    decreases s.len(),
{
    if s.len() > 0 {
        let t = s.drop_last();
        assert forall|i: int| 0 <= i < t.len() implies is_digit(#[trigger] t[i]) by {
            assert(t[i] == s[i]);
        }
        lemma_digits_depth(t);
        assert(is_digit(s[s.len() - 1]));
    }
}

/// A decimal can be an item.
pub proof fn lemma_decimal_is_item(n: int)
    requires
        n >= 0,
    ensures
        is_item(decimal(n)),
{
    let s = decimal(n);
    lemma_decimal_reads_back(n);
    lemma_digits_depth(s);
    assert forall|i: int| 0 <= i < s.len() implies #[trigger] depth(s.take(i)) >= 0 by {
        let t = s.take(i);
        assert forall|k: int| 0 <= k < t.len() implies is_digit(#[trigger] t[k]) by {
            assert(t[k] == s[k]);
        }
        lemma_digits_depth(t);
    }
    assert forall|i: int| 0 <= i < s.len() && #[trigger] s[i] == ',' implies depth(s.take(i))
        > 0 by {
        assert(is_digit(s[i]));
    }
}

/// The numbers of a bracketed list of numbers.
pub open spec fn list_numbers(s: Seq<char>) -> Seq<int> {
    Seq::new(list_items(s).len(), |i: int| number(list_items(s)[i]))
}

/// Reading a bracketed list of numbers gives back the numbers.
pub proof fn lemma_numbers_read_back(items: Seq<Seq<char>>, v: Seq<int>)
    requires
        items.len() == v.len(),
        forall|i: int| 0 <= i < v.len() ==> (#[trigger] v[i]) >= 0 && items[i] == decimal(v[i]),
    ensures
        list_numbers(bracketed(items)) == v,
        is_item(bracketed(items)),
{
    assert forall|i: int| 0 <= i < items.len() implies is_item(#[trigger] items[i]) by {
        assert(v[i] >= 0);
        lemma_decimal_is_item(v[i]);
    }
    lemma_list_reads_back(items);
    lemma_list_is_item(items);
    assert forall|i: int| 0 <= i < v.len() implies #[trigger] list_numbers(bracketed(items))[i]
        == v[i] by {
        lemma_decimal_reads_back(v[i]);
    }
    assert(list_numbers(bracketed(items)) =~= v);
}

/// Reading a bracketed list of machine integers gives back the integers.
pub proof fn lemma_decimals_read_back(v: Seq<usize>)
    ensures
        list_numbers(bracketed(decimals(v))) == Seq::new(v.len(), |i: int| v[i] as int),
        is_item(bracketed(decimals(v))),
{
    lemma_numbers_read_back(decimals(v), Seq::new(v.len(), |i: int| v[i] as int));
}

} // verus!
