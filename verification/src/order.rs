//! The order of the lines of the cache, and sorting by it.

use crate::text::{push_all, rows};
use vstd::prelude::*;
use vstd::relations::{sorted_by, total_ordering};
use vstd::seq_lib::{lemma_multiset_commutative, to_multiset_build};

verus! {

/// The order of lines in the cache: lexicographic by code point, a proper
/// prefix before what it is a prefix of. It is the order of `str`.
pub open spec fn text_le(a: Seq<char>, b: Seq<char>) -> bool
    decreases a.len(),
{
    if a.len() == 0 {
        true
    } else if b.len() == 0 {
        false
    } else if a[0] != b[0] {
        (a[0] as u32) < (b[0] as u32)
    } else {
        text_le(a.drop_first(), b.drop_first())
    }
}

/// [`text_le`] as a relation.
pub open spec fn text_order() -> spec_fn(Seq<char>, Seq<char>) -> bool {
    |a: Seq<char>, b: Seq<char>| text_le(a, b)
}

/// Every text is in order with itself.
pub proof fn lemma_text_le_reflexive(a: Seq<char>)
    ensures
        text_le(a, a),
    decreases a.len(),
{
    if a.len() > 0 {
        lemma_text_le_reflexive(a.drop_first());
    }
}

/// Two texts that are in order both ways are equal.
pub proof fn lemma_text_le_antisymmetric(a: Seq<char>, b: Seq<char>)
    requires
        text_le(a, b),
        text_le(b, a),
    ensures
        a == b,
    decreases a.len(),
{
    if a.len() == 0 || b.len() == 0 {
        assert(a =~= b);
    } else {
        lemma_text_le_antisymmetric(a.drop_first(), b.drop_first());
        assert(a =~= seq![a[0]] + a.drop_first());
        assert(b =~= seq![b[0]] + b.drop_first());
    }
}

/// The order passes on from neighbour to neighbour.
pub proof fn lemma_text_le_transitive(a: Seq<char>, b: Seq<char>, c: Seq<char>)
    requires
        text_le(a, b),
        text_le(b, c),
    ensures
        text_le(a, c),
    decreases a.len(),
{
    if a.len() > 0 && b.len() > 0 && c.len() > 0 && a[0] == b[0] && b[0] == c[0] {
        lemma_text_le_transitive(a.drop_first(), b.drop_first(), c.drop_first());
    }
}

/// Of two texts one comes first.
pub proof fn lemma_text_le_total(a: Seq<char>, b: Seq<char>)
    ensures
        text_le(a, b) || text_le(b, a),
    decreases a.len(),
{
    if a.len() > 0 && b.len() > 0 {
        if a[0] == b[0] {
            lemma_text_le_total(a.drop_first(), b.drop_first());
        } else {
            vstd::utf8::char_u32_cast(a[0], a[0] as u32);
            vstd::utf8::char_u32_cast(b[0], b[0] as u32);
        }
    }
}

/// [`text_le`] is a total order.
pub proof fn lemma_text_order_total()
    ensures
        total_ordering(text_order()),
{
    let leq = text_order();
    assert forall|x: Seq<char>| #[trigger] leq(x, x) by {
        lemma_text_le_reflexive(x);
    }
    assert forall|x: Seq<char>, y: Seq<char>| #[trigger] leq(x, y) && #[trigger] leq(y, x) implies x
        == y by {
        lemma_text_le_antisymmetric(x, y);
    }
    assert forall|x: Seq<char>, y: Seq<char>, z: Seq<char>| #[trigger]
        leq(x, y) && #[trigger] leq(y, z) implies leq(x, z) by {
        lemma_text_le_transitive(x, y, z);
    }
    assert forall|x: Seq<char>, y: Seq<char>| #[trigger] leq(x, y) || #[trigger] leq(y, x) by {
        lemma_text_le_total(x, y);
    }
}

/// Decides [`text_le`].
pub fn comes_first(a: &Vec<char>, b: &Vec<char>) -> (r: bool)
    ensures
        r == text_le(a@, b@),
{
    let mut i: usize = 0;
    assert(a@.skip(0) =~= a@ && b@.skip(0) =~= b@);
    while i < a.len() && i < b.len()
        invariant
            i <= a@.len(),
            i <= b@.len(),
            text_le(a@, b@) == text_le(a@.skip(i as int), b@.skip(i as int)),
        decreases a@.len() - i,
    {
        proof {
            assert(a@.skip(i as int).drop_first() =~= a@.skip(i + 1));
            assert(b@.skip(i as int).drop_first() =~= b@.skip(i + 1));
            assert(a@.skip(i as int)[0] == a@[i as int]);
            assert(b@.skip(i as int)[0] == b@[i as int]);
        }
        if a[i] != b[i] {
            return (a[i] as u32) < (b[i] as u32);
        }
        i += 1;
    }
    i >= a.len()
}

/// A copy of `line`.
fn copy_of(line: &Vec<char>) -> (r: Vec<char>)
    ensures
        r@ == line@,
{
    let mut copy: Vec<char> = Vec::new();
    push_all(&mut copy, line);
    copy
}

/// Merges two sorted sequences of lines into one.
fn merge(left: &Vec<Vec<char>>, right: &Vec<Vec<char>>) -> (r: Vec<Vec<char>>)
    requires
        sorted_by(rows(left@), text_order()),
        sorted_by(rows(right@), text_order()),
    ensures
        sorted_by(rows(r@), text_order()),
        rows(r@).to_multiset() == rows(left@).to_multiset().add(rows(right@).to_multiset()),
{
    let ghost a = rows(left@);
    let ghost b = rows(right@);
    let mut out: Vec<Vec<char>> = Vec::new();
    let mut i: usize = 0;
    let mut j: usize = 0;
    proof {
        let none = Seq::<Seq<char>>::empty();
        assert(a.take(0) =~= none);
        assert(b.take(0) =~= none);
        assert(rows(out@) =~= none);
        assert(none + none =~= none);
        lemma_multiset_commutative(none, none);
    }
    while i < left.len() || j < right.len()
        invariant
            i <= left@.len(),
            j <= right@.len(),
            a == rows(left@),
            b == rows(right@),
            sorted_by(a, text_order()),
            sorted_by(b, text_order()),
            sorted_by(rows(out@), text_order()),
            rows(out@).to_multiset() == a.take(i as int).to_multiset().add(
                b.take(j as int).to_multiset(),
            ),
            out@.len() > 0 && i < a.len() ==> text_le(rows(out@).last(), a[i as int]),
            out@.len() > 0 && j < b.len() ==> text_le(rows(out@).last(), b[j as int]),
        decreases left@.len() - i + right@.len() - j,
    {
        let ghost before = rows(out@);
        let from_left = if i >= left.len() {
            false
        } else if j >= right.len() {
            true
        } else {
            comes_first(&left[i], &right[j])
        };
        let ghost next = if from_left {
            a[i as int]
        } else {
            b[j as int]
        };
        proof {
            if i < a.len() && j < b.len() {
                lemma_text_le_total(a[i as int], b[j as int]);
            }
            lemma_text_le_reflexive(next);
            assert forall|m: int| 0 <= m < before.len() implies text_le(
                #[trigger] before[m],
                next,
            ) by {
                if m < before.len() - 1 {
                    assert(text_order()(before[m], before[before.len() - 1]));
                    lemma_text_le_transitive(before[m], before.last(), next);
                }
            }
            to_multiset_build(before, next);
        }
        if from_left {
            out.push(copy_of(&left[i]));
            proof {
                assert(a.take(i + 1) =~= a.take(i as int).push(next));
                to_multiset_build(a.take(i as int), next);
                if i + 1 < a.len() {
                    assert(text_order()(a[i as int], a[i + 1]));
                }
            }
            i += 1;
        } else {
            out.push(copy_of(&right[j]));
            proof {
                assert(b.take(j + 1) =~= b.take(j as int).push(next));
                to_multiset_build(b.take(j as int), next);
                if j + 1 < b.len() {
                    assert(text_order()(b[j as int], b[j + 1]));
                }
            }
            j += 1;
        }
        proof {
            assert(rows(out@) =~= before.push(next));
            assert(rows(out@).to_multiset() =~= a.take(i as int).to_multiset().add(
                b.take(j as int).to_multiset(),
            ));
            assert forall|m: int, n: int| 0 <= m < n < rows(out@).len() implies text_order()(
                rows(out@)[m],
                rows(out@)[n],
            ) by {
                if n < before.len() {
                    assert(text_order()(before[m], before[n]));
                }
            }
        }
    }
    proof {
        assert(a.take(a.len() as int) =~= a);
        assert(b.take(b.len() as int) =~= b);
    }
    out
}

/// Sorts the lines from `from` up to `to`.
fn sort_range(lines: &Vec<Vec<char>>, from: usize, to: usize) -> (r: Vec<Vec<char>>)
    requires
        from <= to <= lines@.len(),
    ensures
        sorted_by(rows(r@), text_order()),
        rows(r@).to_multiset() == rows(lines@).subrange(from as int, to as int).to_multiset(),
    decreases to - from,
{
    let ghost all = rows(lines@);
    if to - from <= 1 {
        let mut out: Vec<Vec<char>> = Vec::new();
        if from < to {
            out.push(copy_of(&lines[from]));
        }
        assert(rows(out@) =~= all.subrange(from as int, to as int));
        return out;
    }
    let mid: usize = from + (to - from) / 2;
    let left = sort_range(lines, from, mid);
    let right = sort_range(lines, mid, to);
    proof {
        assert(all.subrange(from as int, to as int) =~= all.subrange(from as int, mid as int)
            + all.subrange(mid as int, to as int));
        lemma_multiset_commutative(
            all.subrange(from as int, mid as int),
            all.subrange(mid as int, to as int),
        );
    }
    merge(&left, &right)
}

/// Sorts lines by [`text_le`].
pub fn sort_lines(lines: &Vec<Vec<char>>) -> (r: Vec<Vec<char>>)
    ensures
        rows(r@) == rows(lines@).sort_by(text_order()),
{
    let sorted = sort_range(lines, 0, lines.len());
    proof {
        let source = rows(lines@);
        assert(source.subrange(0, source.len() as int) =~= source);
        lemma_text_order_total();
        source.lemma_sort_by_ensures(text_order());
        vstd::seq_lib::lemma_sorted_unique(rows(sorted@), source.sort_by(text_order()), text_order());
    }
    sorted
}

} // verus!
