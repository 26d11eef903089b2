//! The order of texts by their characters' code points, and sorting by it.
//!
//! UTF-8 keeps the order of code points, so this is also the order of the
//! encoded bytes, which is the order of `str`.

use crate::text::{texts, to_chars};
use vstd::prelude::*;
use vstd::relations::*;
use vstd::seq_lib::*;

verus! {

/// `a` does not come after `b`: at the first place where they differ, `a`
/// has ended or has the smaller character.
pub open spec fn text_le(a: Seq<char>, b: Seq<char>) -> bool
    decreases a.len(),
{
    if a.len() == 0 {
        true
    } else if b.len() == 0 {
        false
    } else if a[0] != b[0] {
        a[0] < b[0]
    } else {
        text_le(a.drop_first(), b.drop_first())
    }
}

/// [`text_le`] as a relation.
pub open spec fn by_text() -> spec_fn(Seq<char>, Seq<char>) -> bool {
    |a: Seq<char>, b: Seq<char>| text_le(a, b)
}

/// The members of `list` in ascending order.
pub open spec fn in_order(list: Seq<Seq<char>>) -> Seq<Seq<char>> {
    list.sort_by(by_text())
}

/// The members of `set` in ascending order.
pub open spec fn set_in_order(set: Set<Seq<char>>) -> Seq<Seq<char>> {
    set.to_sorted_seq(by_text())
}

/// Each member of `list` comes before the next, and none occurs twice.
pub open spec fn ascending(list: Seq<Seq<char>>) -> bool {
    forall|i: int, j: int|
        0 <= i < j < list.len() ==> text_le(#[trigger] list[i], #[trigger] list[j]) && list[i]
            != list[j]
}

proof fn lemma_reflexive(a: Seq<char>)
    ensures
        text_le(a, a),
    decreases a.len(),
{
    if a.len() > 0 {
        lemma_reflexive(a.drop_first());
    }
}

proof fn lemma_antisymmetric(a: Seq<char>, b: Seq<char>)
    requires
        text_le(a, b),
        text_le(b, a),
    ensures
        a == b,
    decreases a.len(),
{
    if a.len() > 0 && b.len() > 0 {
        lemma_antisymmetric(a.drop_first(), b.drop_first());
        assert(a =~= seq![a[0]] + a.drop_first());
        assert(b =~= seq![b[0]] + b.drop_first());
    } else {
        assert(a =~= b);
    }
}

proof fn lemma_transitive(a: Seq<char>, b: Seq<char>, c: Seq<char>)
    requires
        text_le(a, b),
        text_le(b, c),
    ensures
        text_le(a, c),
    decreases a.len(),
{
    if a.len() > 0 && a[0] == b[0] && b[0] == c[0] {
        lemma_transitive(a.drop_first(), b.drop_first(), c.drop_first());
    }
}

proof fn lemma_connected(a: Seq<char>, b: Seq<char>)
    ensures
        text_le(a, b) || text_le(b, a),
    decreases a.len(),
{
    if a.len() > 0 && b.len() > 0 && a[0] == b[0] {
        lemma_connected(a.drop_first(), b.drop_first());
    }
}

/// The order of texts is total.
pub proof fn law_text_order_is_total()
    ensures
        total_ordering(by_text()),
{
    let le = by_text();
    assert forall|a: Seq<char>| #[trigger] le(a, a) by {
        lemma_reflexive(a);
    }
    assert forall|a: Seq<char>, b: Seq<char>| #[trigger] le(a, b) && #[trigger] le(b, a) implies a
        == b by {
        lemma_antisymmetric(a, b);
    }
    assert forall|a: Seq<char>, b: Seq<char>, c: Seq<char>| #[trigger]
        le(a, b) && #[trigger] le(b, c) implies le(a, c) by {
        lemma_transitive(a, b, c);
    }
    assert forall|a: Seq<char>, b: Seq<char>| #[trigger] le(a, b) || #[trigger] le(b, a) by {
        lemma_connected(a, b);
    }
}

/// A sorted rearrangement of `list` is `list` in order.
pub proof fn lemma_sorted_is_in_order(sorted: Seq<Seq<char>>, list: Seq<Seq<char>>)
    requires
        sorted_by(sorted, by_text()),
        sorted.to_multiset() == list.to_multiset(),
    ensures
        sorted == in_order(list),
{
    law_text_order_is_total();
    list.lemma_sort_by_ensures(by_text());
    lemma_sorted_unique(sorted, in_order(list), by_text());
}

/// A finite set, put in a list, occurs once each.
proof fn lemma_set_to_seq_no_duplicates(set: Set<Seq<char>>)
    requires
        set.finite(),
    ensures
        set.to_seq().no_duplicates(),
        set.to_seq().len() == set.len(),
    decreases set.len(),
{
    if set.len() > 0 {
        let x = set.choose();
        let rest = set.remove(x);
        lemma_set_to_seq_no_duplicates(rest);
        rest.lemma_to_seq_to_set_id();
        assert forall|i: int| 0 <= i < rest.to_seq().len() implies #[trigger] rest.to_seq()[i]
            != x by {
            assert(rest.to_seq().to_set().contains(rest.to_seq()[i]));
        }
    }
}

/// A finite set in order holds its members, each once.
pub proof fn lemma_set_in_order_members(set: Set<Seq<char>>)
    requires
        set.finite(),
    ensures
        set_in_order(set).to_set() == set,
        set_in_order(set).len() == set.len(),
{
    broadcast use {vstd::multiset::group_multiset_axioms, group_to_multiset_ensures};

    let list = set.to_seq();
    let sorted = set_in_order(set);
    law_text_order_is_total();
    list.lemma_sort_by_ensures(by_text());
    lemma_set_to_seq_no_duplicates(set);
    set.lemma_to_seq_to_set_id();
    assert(sorted.to_set() =~= set) by {
        assert forall|x: Seq<char>| sorted.contains(x) <==> set.contains(x) by {
            assert(sorted.to_multiset().count(x) == list.to_multiset().count(x));
            assert(list.to_set().contains(x) <==> set.contains(x));
        }
    }
    assert(sorted.to_multiset().len() == list.to_multiset().len());
}

/// An ascending list is its set of members in order.
pub proof fn lemma_ascending_is_set_in_order(list: Seq<Seq<char>>)
    requires
        ascending(list),
    ensures
        list == set_in_order(list.to_set()),
{
    broadcast use {vstd::multiset::group_multiset_axioms, group_to_multiset_ensures};

    let set = list.to_set();
    let other = set.to_seq();
    seq_to_set_is_finite(list);
    lemma_set_to_seq_no_duplicates(set);
    set.lemma_to_seq_to_set_id();
    list.lemma_multiset_has_no_duplicates();
    other.lemma_multiset_has_no_duplicates();
    assert(list.to_multiset() =~= other.to_multiset()) by {
        assert forall|x: Seq<char>| list.to_multiset().count(x) == other.to_multiset().count(x) by {
            assert(list.to_set().contains(x) <==> other.to_set().contains(x));
            assert(list.contains(x) <==> other.contains(x));
            assert(list.contains(x) <==> list.to_multiset().contains(x));
            assert(other.contains(x) <==> other.to_multiset().contains(x));
        }
    }
    let le = by_text();
    assert(sorted_by(list, le)) by {
        assert forall|i: int, j: int| 0 <= i < j < list.len() implies #[trigger] le(
            list[i],
            list[j],
        ) by {}
    }
    lemma_sorted_is_in_order(list, other);
}

/// Whether `a` does not come after `b`.
pub fn not_after(a: &str, b: &str) -> (yes: bool)
    ensures
        yes == text_le(a@, b@),
{
    let x = to_chars(a);
    let y = to_chars(b);
    let mut i: usize = 0;
    assert(x@.skip(0) =~= x@);
    assert(y@.skip(0) =~= y@);
    while i < x.len()
        invariant
            i <= x@.len(),
            i <= y@.len(),
            text_le(x@, y@) == text_le(x@.skip(i as int), y@.skip(i as int)),
            x@ == a@,
            y@ == b@,
        decreases x@.len() - i,
    {
        if i == y.len() {
            return false;
        }
        if x[i] != y[i] {
            return x[i] < y[i];
        }
        assert(x@.skip(i as int).drop_first() =~= x@.skip(i + 1));
        assert(y@.skip(i as int).drop_first() =~= y@.skip(i + 1));
        i += 1;
    }
    true
}

/// The position behind all members of the sorted list `list` that come
/// before or equal `s`.
fn place_of(list: &Vec<String>, s: &str) -> (at: usize)
    requires
        sorted_by(texts(list@), by_text()),
    ensures
        at <= list@.len(),
        forall|i: int| 0 <= i < at ==> text_le((#[trigger] list@[i])@, s@),
        forall|i: int| at <= i < list@.len() ==> text_le(s@, (#[trigger] list@[i])@),
{
    let ghost le = by_text();
    let mut at: usize = 0;
    while at < list.len() && not_after(list[at].as_str(), s)
        invariant
            at <= list@.len(),
            forall|i: int| 0 <= i < at ==> text_le((#[trigger] list@[i])@, s@),
        decreases list@.len() - at,
    {
        at += 1;
    }
    proof {
        law_text_order_is_total();
        if at < list@.len() {
            assert(le(s@, list@[at as int]@) || le(list@[at as int]@, s@));
            assert forall|i: int| at <= i < list@.len() implies text_le(
                s@,
                (#[trigger] list@[i])@,
            ) by {
                if i > at {
                    assert(le(texts(list@)[at as int], texts(list@)[i]));
                    lemma_transitive(s@, list@[at as int]@, list@[i]@);
                }
            }
        }
    }
    at
}

/// Sorts a list of texts.
pub fn sort_texts(list: Vec<String>) -> (sorted: Vec<String>)
    ensures
        texts(sorted@) == in_order(texts(list@)),
{
    let ghost all = list@;
    let ghost le = by_text();
    let mut sorted: Vec<String> = Vec::new();
    assert(texts(all.take(0)) =~= texts(sorted@));
    for s in iter: list
        invariant
            iter.seq() == all,
            le == by_text(),
            sorted_by(texts(sorted@), le),
            texts(sorted@).to_multiset() == texts(all.take(iter.index())).to_multiset(),
    {
        let ghost i = iter.index();
        let ghost before = sorted@;
        let at: usize = place_of(&sorted, s.as_str());
        let ghost text = s@;
        sorted.insert(at, s);
        assert(texts(sorted@) =~= texts(before).insert(at as int, text));
        assert(texts(all.take(i + 1)) =~= texts(all.take(i)).push(text));
        proof {
            to_multiset_insert(texts(before), at as int, text);
            to_multiset_build(texts(all.take(i)), text);
        }
        assert(sorted_by(texts(sorted@), le)) by {
            assert forall|a: int, b: int| 0 <= a < b < texts(sorted@).len() implies #[trigger] le(
                texts(sorted@)[a],
                texts(sorted@)[b],
            ) by {
                let was_a = if a < at { a } else { a - 1 };
                let was_b = if b < at { b } else { b - 1 };
                if a != at && b != at {
                    assert(le(texts(before)[was_a], texts(before)[was_b]));
                } else if a == at {
                    assert(text_le(text, before[was_b]@));
                } else {
                    assert(text_le(before[was_a]@, text));
                }
            }
        }
    }
    assert(all.take(all.len() as int) =~= all);
    proof {
        lemma_sorted_is_in_order(texts(sorted@), texts(all));
    }
    sorted
}

/// Texts are ordered by the first place where they differ, and a text comes
/// before whatever it is the beginning of.
pub proof fn law_texts_are_ordered_by_their_first_difference(
    common: Seq<char>,
    a: Seq<char>,
    b: Seq<char>,
)
    requires
        a.len() == 0 || b.len() == 0 || a[0] != b[0],
    ensures
        text_le(common + a, common + b) <==> a.len() == 0 || (b.len() > 0 && a[0] < b[0]),
    decreases common.len(),
{
    if common.len() == 0 {
        assert(common + a =~= a);
        assert(common + b =~= b);
    } else {
        law_texts_are_ordered_by_their_first_difference(common.drop_first(), a, b);
        assert((common + a).drop_first() =~= common.drop_first() + a);
        assert((common + b).drop_first() =~= common.drop_first() + b);
    }
}

} // verus!
