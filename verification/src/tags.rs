//! What the attributes of an item mean for its keys, tag by tag.
//!
//! The laws here speak of the attributes themselves: which tags move a
//! price, how each is read, and that two items share a key exactly where
//! they agree on those tags.

use crate::encoding::{
    flag_bytes, lemma_flag_prefix, lemma_marker_prefix, lemma_number_prefix, lemma_option_prefix,
    lemma_text_prefix, number_bytes, option_bytes, text_bytes,
};
use crate::fingerprint::{
    compound_part, countable, exact_key, is_top, item_bytes, law_encoding_tells_items_apart,
    lemma_top_is_unique, levels, major_bytes, major_key, modifiers, number_part, strings_of, top,
    top_bytes, Gem, Modifiers,
};
use crate::nbt::Tree;
use crate::order::{by_text, law_text_order_is_total, lemma_sorted_is_in_order, text_le};
use std::collections::hash_map::DefaultHasher;
use vstd::prelude::*;
use vstd::relations::*;
use vstd::std_specs::hash::*;

verus! {

/// A number under one of the four integer tags.
pub open spec fn amounts_to(tree: Tree, n: int) -> bool {
    match tree {
        Tree::Byte(b) => b == n,
        Tree::Short(b) => b == n,
        Tree::Int(b) => b == n,
        Tree::Long(b) => b == n,
        _ => false,
    }
}

/// The field `name` is there and amounts to `n`.
pub open spec fn has_number(fields: Map<Seq<char>, Tree>, name: Seq<char>, n: int) -> bool {
    fields.contains_key(name) && amounts_to(fields[name], n)
}

/// The field `name` is there and is the string `s`.
pub open spec fn has_text(fields: Map<Seq<char>, Tree>, name: Seq<char>, s: Seq<char>) -> bool {
    fields.contains_key(name) && fields[name] == Tree::String(s)
}

/// The field `name` is there and amounts to one or more.
pub open spec fn is_marked(fields: Map<Seq<char>, Tree>, name: Seq<char>) -> bool {
    exists|n: int| n >= 1 && #[trigger] has_number(fields, name, n)
}

/// The field `name` is a compound in which the field `key` amounts to `n`.
pub open spec fn has_level(
    fields: Map<Seq<char>, Tree>,
    name: Seq<char>,
    key: Seq<char>,
    n: int,
) -> bool {
    fields.contains_key(name) && fields[name] is Compound && has_number(
        fields[name]->Compound_0,
        key,
        n,
    )
}

/// The field `name` is a compound with a field `slot`.
pub open spec fn has_slot(
    fields: Map<Seq<char>, Tree>,
    name: Seq<char>,
    slot: Seq<char>,
) -> bool {
    fields.contains_key(name) && fields[name] is Compound && fields[name]->Compound_0.contains_key(
        slot,
    )
}

/// The gemstone slot `slot` is the plain string `s`.
pub open spec fn has_plain_gem(
    fields: Map<Seq<char>, Tree>,
    slot: Seq<char>,
    s: Seq<char>,
) -> bool {
    has_slot(fields, "gems"@, slot) && has_text(fields["gems"@]->Compound_0, slot, s)
}

/// The gemstone slot `slot` is a compound.
pub open spec fn has_gem(fields: Map<Seq<char>, Tree>, slot: Seq<char>) -> bool {
    has_slot(fields, "gems"@, slot) && fields["gems"@]->Compound_0[slot] is Compound
}

/// The gemstone slot `slot` is a compound with the string `s` as `quality`.
pub open spec fn has_rated_gem(
    fields: Map<Seq<char>, Tree>,
    slot: Seq<char>,
    s: Seq<char>,
) -> bool {
    has_gem(fields, slot) && has_text(
        fields["gems"@]->Compound_0[slot]->Compound_0,
        "quality"@,
        s,
    )
}

/// The strings in the list under `name`.
pub open spec fn listed(fields: Map<Seq<char>, Tree>, name: Seq<char>) -> Seq<Seq<char>> {
    if fields.contains_key(name) && fields[name] is List {
        fields[name]->List_0.filter(|t: Tree| t is String).map_values(|t: Tree| t->String_0)
    } else {
        Seq::empty()
    }
}

/// `name` is the enchantment of the highest level; of several with the same
/// level, the first by name.
pub open spec fn is_highest(fields: Map<Seq<char>, Tree>, name: Seq<char>, level: int) -> bool {
    &&& has_level(fields, "enchantments"@, name, level)
    &&& forall|other: Seq<char>, l: int| #[trigger]
        has_level(fields, "enchantments"@, other, l) ==> l < level || (l == level && text_le(
            name,
            other,
        ))
}

proof fn lemma_integer(tree: Tree)
    ensures
        forall|n: int|
            #![trigger amounts_to(tree, n)]
            amounts_to(tree, n) <==> (tree.integer() is Some && tree.integer()->0 == n),
{
}

proof fn lemma_strings_of(list: Seq<Tree>)
    ensures
        strings_of(list) == list.filter(|t: Tree| t is String).map_values(|t: Tree| t->String_0),
    decreases list.len(),
{
    reveal(Seq::filter);
    let p = |t: Tree| t is String;
    let f = |t: Tree| t->String_0;
    if list.len() > 0 {
        lemma_strings_of(list.drop_last());
        let before = list.drop_last().filter(p);
        if list.last() is String {
            assert(list.filter(p) == before.push(list.last()));
            assert(before.push(list.last()).map_values(f) =~= before.map_values(f).push(
                f(list.last()),
            ));
        } else {
            assert(list.filter(p) == before);
        }
    }
    assert(strings_of(list) =~= list.filter(p).map_values(f));
}

/// The price-moving modifiers of an item are read from its attributes, each
/// from a tag of its own: texts from strings, numbers from integers of any
/// width, marks from a count of one or more, levels from the integers in a
/// compound, and scrolls from the strings in a list, in order. What is not
/// there counts as none, or zero.
pub proof fn law_modifiers_come_from_their_tags(fields: Map<Seq<char>, Tree>)
    ensures
        ({
            let m = modifiers(Some(Tree::Compound(fields)));
            &&& forall|s: Seq<char>|
                m.reforge == Some(s) <==> #[trigger] has_text(fields, "modifier"@, s)
            &&& forall|s: Seq<char>|
                m.enrichment == Some(s) <==> #[trigger] has_text(
                    fields,
                    "talisman_enrichment"@,
                    s,
                )
            &&& forall|s: Seq<char>|
                m.skin == Some(s) <==> #[trigger] has_text(fields, "skin"@, s)
            &&& m.recombobulated <==> is_marked(fields, "rarity_upgrades"@)
            &&& m.art_of_war <==> is_marked(fields, "art_of_war_count"@)
            &&& forall|n: int|
                n != 0 ==> (m.stars == n <==> #[trigger] has_number(
                    fields,
                    "dungeon_item_level"@,
                    n,
                ))
            &&& forall|n: int|
                n != 0 ==> (m.hot_potato_books == n <==> #[trigger] has_number(
                    fields,
                    "hot_potato_count"@,
                    n,
                ))
            &&& forall|k: Seq<char>, n: int|
                (m.runes.contains_key(k) && m.runes[k] == n) <==> #[trigger] has_level(
                    fields,
                    "runes"@,
                    k,
                    n,
                )
            &&& forall|k: Seq<char>, n: int|
                (m.enchantments.contains_key(k) && m.enchantments[k] == n) <==> #[trigger] has_level(
                    fields,
                    "enchantments"@,
                    k,
                    n,
                )
            &&& forall|k: Seq<char>|
                m.gems.contains_key(k) <==> #[trigger] has_slot(fields, "gems"@, k)
            &&& forall|k: Seq<char>, s: Seq<char>|
                (m.gems.contains_key(k) && m.gems[k] == Gem::Plain(s)) <==> #[trigger] has_plain_gem(
                    fields,
                    k,
                    s,
                )
            &&& forall|k: Seq<char>, s: Seq<char>|
                (m.gems.contains_key(k) && m.gems[k] == Gem::Rated(s)) <==> #[trigger] has_rated_gem(
                    fields,
                    k,
                    s,
                )
            &&& forall|k: Seq<char>|
                (m.gems.contains_key(k) && (m.gems[k] is Rated || m.gems[k] is Unrated))
                    <==> #[trigger] has_gem(fields, k)
            &&& sorted_by(m.scrolls, by_text())
            &&& m.scrolls.to_multiset() == listed(fields, "ability_scroll"@).to_multiset()
        }),
{
    let m = modifiers(Some(Tree::Compound(fields)));
    assert forall|name: Seq<char>| #[trigger] fields.contains_key(name) implies forall|n: int|
        #![trigger amounts_to(fields[name], n)]
        amounts_to(fields[name], n) <==> (fields[name].integer() is Some
            && fields[name].integer()->0 == n) by {
        lemma_integer(fields[name]);
    }
    lemma_mark(fields, "rarity_upgrades"@);
    lemma_mark(fields, "art_of_war_count"@);
    lemma_levels(fields, "runes"@);
    lemma_levels(fields, "enchantments"@);
    if fields.contains_key("ability_scroll"@) && fields["ability_scroll"@] is List {
        lemma_strings_of(fields["ability_scroll"@]->List_0);
    }
    law_text_order_is_total();
    listed(fields, "ability_scroll"@).lemma_sort_by_ensures(by_text());
}

proof fn lemma_mark(fields: Map<Seq<char>, Tree>, name: Seq<char>)
    ensures
        is_marked(fields, name) <==> number_part(fields, name) >= 1,
{
    if fields.contains_key(name) {
        lemma_integer(fields[name]);
        if let Some(n) = fields[name].integer() {
            assert(has_number(fields, name, n as int));
        }
    }
}

proof fn lemma_levels(fields: Map<Seq<char>, Tree>, name: Seq<char>)
    ensures
        ({
            let m = levels(compound_part(fields, name));
            forall|k: Seq<char>, n: int|
                (m.contains_key(k) && m[k] == n) <==> #[trigger] has_level(fields, name, k, n)
        }),
{
    let inner = compound_part(fields, name);
    let m = levels(inner);
    assert forall|k: Seq<char>, n: int|
        (m.contains_key(k) && m[k] == n) <==> #[trigger] has_level(fields, name, k, n) by {
        if inner.contains_key(k) {
            lemma_integer(inner[k]);
        }
    }
}

/// Two items agree on every tag that moves a price: reforge, marks of
/// recombobulation and of the art of war, hot potato books, stars,
/// enrichment, skin, runes, enchantments, scrolls in whatever order, and
/// gemstone slots by their quality.
pub open spec fn same_tags(a: Map<Seq<char>, Tree>, b: Map<Seq<char>, Tree>) -> bool {
    &&& same_major_counts(a, b)
    &&& is_marked(a, "art_of_war_count"@) <==> is_marked(b, "art_of_war_count"@)
    &&& forall|s: Seq<char>|
        #![trigger has_text(a, "talisman_enrichment"@, s)]
        #![trigger has_text(b, "talisman_enrichment"@, s)]
        has_text(a, "talisman_enrichment"@, s) <==> has_text(b, "talisman_enrichment"@, s)
    &&& forall|s: Seq<char>|
        #![trigger has_text(a, "skin"@, s)]
        #![trigger has_text(b, "skin"@, s)]
        has_text(a, "skin"@, s) <==> has_text(b, "skin"@, s)
    &&& forall|k: Seq<char>, n: int|
        #![trigger has_level(a, "runes"@, k, n)]
        #![trigger has_level(b, "runes"@, k, n)]
        has_level(a, "runes"@, k, n) <==> has_level(b, "runes"@, k, n)
    &&& forall|k: Seq<char>, n: int|
        #![trigger has_level(a, "enchantments"@, k, n)]
        #![trigger has_level(b, "enchantments"@, k, n)]
        has_level(a, "enchantments"@, k, n) <==> has_level(b, "enchantments"@, k, n)
    &&& forall|k: Seq<char>|
        #![trigger has_slot(a, "gems"@, k)]
        #![trigger has_slot(b, "gems"@, k)]
        has_slot(a, "gems"@, k) <==> has_slot(b, "gems"@, k)
    &&& forall|k: Seq<char>|
        #![trigger has_gem(a, k)]
        #![trigger has_gem(b, k)]
        has_gem(a, k) <==> has_gem(b, k)
    &&& forall|k: Seq<char>, s: Seq<char>|
        #![trigger has_plain_gem(a, k, s)]
        #![trigger has_plain_gem(b, k, s)]
        has_plain_gem(a, k, s) <==> has_plain_gem(b, k, s)
    &&& forall|k: Seq<char>, s: Seq<char>|
        #![trigger has_rated_gem(a, k, s)]
        #![trigger has_rated_gem(b, k, s)]
        has_rated_gem(a, k, s) <==> has_rated_gem(b, k, s)
    &&& listed(a, "ability_scroll"@).to_multiset() == listed(b, "ability_scroll"@).to_multiset()
}

/// Two items agree on reforge, recombobulation, stars and hot potato books.
pub open spec fn same_major_counts(a: Map<Seq<char>, Tree>, b: Map<Seq<char>, Tree>) -> bool {
    &&& forall|s: Seq<char>|
        #![trigger has_text(a, "modifier"@, s)]
        #![trigger has_text(b, "modifier"@, s)]
        has_text(a, "modifier"@, s) <==> has_text(b, "modifier"@, s)
    &&& is_marked(a, "rarity_upgrades"@) <==> is_marked(b, "rarity_upgrades"@)
    &&& forall|n: int|
        #![trigger has_number(a, "dungeon_item_level"@, n)]
        #![trigger has_number(b, "dungeon_item_level"@, n)]
        n != 0 ==> (has_number(a, "dungeon_item_level"@, n) <==> has_number(
            b,
            "dungeon_item_level"@,
            n,
        ))
    &&& forall|n: int|
        #![trigger has_number(a, "hot_potato_count"@, n)]
        #![trigger has_number(b, "hot_potato_count"@, n)]
        n != 0 ==> (has_number(a, "hot_potato_count"@, n) <==> has_number(
            b,
            "hot_potato_count"@,
            n,
        ))
}

/// Two items agree on what the coarser key sees: reforge, recombobulation,
/// stars, hot potato books and the enchantment of the highest level.
pub open spec fn same_major_tags(a: Map<Seq<char>, Tree>, b: Map<Seq<char>, Tree>) -> bool {
    &&& same_major_counts(a, b)
    &&& forall|name: Seq<char>, level: int|
        #![trigger is_highest(a, name, level)]
        #![trigger is_highest(b, name, level)]
        is_highest(a, name, level) <==> is_highest(b, name, level)
}

proof fn lemma_same_counts(a: Map<Seq<char>, Tree>, b: Map<Seq<char>, Tree>)
    ensures
        ({
            let m = modifiers(Some(Tree::Compound(a)));
            let o = modifiers(Some(Tree::Compound(b)));
            same_major_counts(a, b) <==> (m.reforge == o.reforge && m.recombobulated
                == o.recombobulated && m.stars == o.stars && m.hot_potato_books
                == o.hot_potato_books)
        }),
{
    let m = modifiers(Some(Tree::Compound(a)));
    let o = modifiers(Some(Tree::Compound(b)));
    law_modifiers_come_from_their_tags(a);
    law_modifiers_come_from_their_tags(b);
    if same_major_counts(a, b) {
        assert(m.reforge == o.reforge) by {
            if let Some(s) = m.reforge {
                assert(has_text(a, "modifier"@, s));
            }
            if let Some(s) = o.reforge {
                assert(has_text(b, "modifier"@, s));
            }
        }
        assert(m.stars == o.stars) by {
            if m.stars != 0 {
                assert(has_number(a, "dungeon_item_level"@, m.stars as int));
            } else if o.stars != 0 {
                assert(has_number(b, "dungeon_item_level"@, o.stars as int));
            }
        }
        assert(m.hot_potato_books == o.hot_potato_books) by {
            if m.hot_potato_books != 0 {
                assert(has_number(a, "hot_potato_count"@, m.hot_potato_books as int));
            } else if o.hot_potato_books != 0 {
                assert(has_number(b, "hot_potato_count"@, o.hot_potato_books as int));
            }
        }
    }
}

proof fn lemma_same_levels(
    m: Map<Seq<char>, i64>,
    o: Map<Seq<char>, i64>,
    a: Map<Seq<char>, Tree>,
    b: Map<Seq<char>, Tree>,
    name: Seq<char>,
)
    requires
        forall|k: Seq<char>, n: int|
            (m.contains_key(k) && m[k] == n) <==> #[trigger] has_level(a, name, k, n),
        forall|k: Seq<char>, n: int|
            (o.contains_key(k) && o[k] == n) <==> #[trigger] has_level(b, name, k, n),
        forall|k: Seq<char>, n: int|
            #![trigger has_level(a, name, k, n)]
            #![trigger has_level(b, name, k, n)]
            has_level(a, name, k, n) <==> has_level(b, name, k, n),
    ensures
        m == o,
{
    assert forall|k: Seq<char>| #[trigger] m.contains_key(k) implies o.contains_key(k) && o[k]
        == m[k] by {
        assert(has_level(a, name, k, m[k] as int));
    }
    assert forall|k: Seq<char>| #[trigger] o.contains_key(k) implies m.contains_key(k) by {
        assert(has_level(b, name, k, o[k] as int));
    }
    assert(m =~= o);
}

/// Items agree on the tags that move a price exactly where their modifiers
/// are the same.
proof fn lemma_same_tags(a: Map<Seq<char>, Tree>, b: Map<Seq<char>, Tree>)
    ensures
        same_tags(a, b) <==> modifiers(Some(Tree::Compound(a))) == modifiers(
            Some(Tree::Compound(b)),
        ),
{
    let m = modifiers(Some(Tree::Compound(a)));
    let o = modifiers(Some(Tree::Compound(b)));
    law_modifiers_come_from_their_tags(a);
    law_modifiers_come_from_their_tags(b);
    lemma_same_counts(a, b);
    if same_tags(a, b) {
        assert(m.enrichment == o.enrichment) by {
            if let Some(s) = m.enrichment {
                assert(has_text(a, "talisman_enrichment"@, s));
            }
            if let Some(s) = o.enrichment {
                assert(has_text(b, "talisman_enrichment"@, s));
            }
        }
        assert(m.skin == o.skin) by {
            if let Some(s) = m.skin {
                assert(has_text(a, "skin"@, s));
            }
            if let Some(s) = o.skin {
                assert(has_text(b, "skin"@, s));
            }
        }
        lemma_same_levels(m.runes, o.runes, a, b, "runes"@);
        lemma_same_levels(m.enchantments, o.enchantments, a, b, "enchantments"@);
        assert(m.gems =~= o.gems) by {
            assert forall|k: Seq<char>| #[trigger] m.gems.contains_key(k) <==> o.gems.contains_key(
                k,
            ) by {
                assert(has_slot(a, "gems"@, k) <==> has_slot(b, "gems"@, k));
            }
            assert forall|k: Seq<char>| #[trigger] m.gems.contains_key(k) implies m.gems[k]
                == o.gems[k] by {
                assert(o.gems.contains_key(k));
                assert(has_gem(a, k) <==> has_gem(b, k));
                match m.gems[k] {
                    Gem::Plain(s) => assert(has_plain_gem(a, k, s)),
                    Gem::Rated(s) => assert(has_rated_gem(a, k, s)),
                    _ => {},
                }
                match o.gems[k] {
                    Gem::Plain(s) => assert(has_plain_gem(b, k, s)),
                    Gem::Rated(s) => assert(has_rated_gem(b, k, s)),
                    _ => {},
                }
            }
        }
        assert(m.scrolls == o.scrolls) by {
            let la = listed(a, "ability_scroll"@);
            lemma_sorted_is_in_order(m.scrolls, la);
            lemma_sorted_is_in_order(o.scrolls, la);
        }
        assert(m =~= o);
    }
}

/// Of two items with attributes, what is hashed for the fingerprint is the
/// same exactly where they have the same id and agree on every tag that
/// moves a price. So a difference in any one of them tells the items apart,
/// and no other tag does.
pub proof fn law_fingerprints_tell_tags_apart(
    id: Seq<char>,
    a: Map<Seq<char>, Tree>,
    other_id: Seq<char>,
    b: Map<Seq<char>, Tree>,
)
    requires
        countable(modifiers(Some(Tree::Compound(a)))),
        countable(modifiers(Some(Tree::Compound(b)))),
    ensures
        ({
            let m = modifiers(Some(Tree::Compound(a)));
            let o = modifiers(Some(Tree::Compound(b)));
            &&& item_bytes(id, m) == item_bytes(other_id, o) <==> id == other_id && same_tags(a, b)
            &&& exact_key(id, Some(Tree::Compound(a))).0 == DefaultHasher::spec_finish(
                seq![item_bytes(id, m)],
            )
        }),
{
    let m = modifiers(Some(Tree::Compound(a)));
    let o = modifiers(Some(Tree::Compound(b)));
    lemma_same_tags(a, b);
    if item_bytes(id, m) == item_bytes(other_id, o) {
        law_encoding_tells_items_apart(id, m, other_id, o);
    }
}

proof fn lemma_top_prefix(a: Option<(Seq<char>, i64)>, b: Option<(Seq<char>, i64)>)
    requires
        top_bytes(a) == top_bytes(b),
    ensures
        a == b,
{
    let none = Seq::<u8>::empty();
    let (mark_a, x) = match a {
        Some((name, level)) => (1u8, text_bytes(name) + number_bytes(level)),
        None => (0u8, none),
    };
    let (mark_b, y) = match b {
        Some((name, level)) => (1u8, text_bytes(name) + number_bytes(level)),
        None => (0u8, none),
    };
    assert(top_bytes(a) =~= seq![mark_a] + x);
    assert(top_bytes(b) =~= seq![mark_b] + y);
    lemma_marker_prefix(mark_a, x, mark_b, y);
    match (a, b) {
        (Some((name, level)), Some((other, l))) => {
            lemma_text_prefix(name, number_bytes(level), other, number_bytes(l));
            assert(number_bytes(level) + none =~= number_bytes(level));
            assert(number_bytes(l) + none =~= number_bytes(l));
            lemma_number_prefix(level, none, l, none);
        },
        _ => {},
    }
}

/// What is hashed for the coarser key tells apart what it is meant to see:
/// equal bytes come of equal ids, reforges, recombobulation, stars, hot
/// potato books and highest-level enchantments alone.
pub proof fn law_major_encoding_tells_items_apart(
    id: Seq<char>,
    m: Modifiers,
    other_id: Seq<char>,
    other: Modifiers,
)
    requires
        major_bytes(id, m) == major_bytes(other_id, other),
    ensures
        id == other_id,
        m.reforge == other.reforge,
        m.recombobulated == other.recombobulated,
        m.stars == other.stars,
        m.hot_potato_books == other.hot_potato_books,
        top(m.enchantments) == top(other.enchantments),
{
    let t4 = top_bytes(top(m.enchantments));
    let t3 = number_bytes(m.hot_potato_books) + t4;
    let t2 = number_bytes(m.stars) + t3;
    let t1 = flag_bytes(m.recombobulated) + t2;
    let t0 = option_bytes(m.reforge) + t1;
    let u4 = top_bytes(top(other.enchantments));
    let u3 = number_bytes(other.hot_potato_books) + u4;
    let u2 = number_bytes(other.stars) + u3;
    let u1 = flag_bytes(other.recombobulated) + u2;
    let u0 = option_bytes(other.reforge) + u1;
    lemma_text_prefix(id, t0, other_id, u0);
    lemma_option_prefix(m.reforge, t1, other.reforge, u1);
    lemma_flag_prefix(m.recombobulated, t2, other.recombobulated, u2);
    lemma_number_prefix(m.stars, t3, other.stars, u3);
    lemma_number_prefix(m.hot_potato_books, t4, other.hot_potato_books, u4);
    lemma_top_prefix(top(m.enchantments), top(other.enchantments));
}

/// The highest-level enchantment of an item is the one that the coarser key
/// is made of; there is none only where the item has no enchantment.
pub proof fn law_highest_enchantment(fields: Map<Seq<char>, Tree>)
    requires
        modifiers(Some(Tree::Compound(fields))).enchantments.dom().finite(),
    ensures
        ({
            let found = top(modifiers(Some(Tree::Compound(fields))).enchantments);
            &&& forall|name: Seq<char>, level: int|
                (found matches Some((n, l)) && n == name && l == level)
                    <==> #[trigger] is_highest(fields, name, level)
            &&& found is None <==> forall|name: Seq<char>, level: int|
                !#[trigger] has_level(fields, "enchantments"@, name, level)
        }),
{
    let m = modifiers(Some(Tree::Compound(fields))).enchantments;
    law_modifiers_come_from_their_tags(fields);
    assert forall|name: Seq<char>, level: int| #[trigger] is_highest(fields, name, level) implies
        top(m) == Some((name, m[name])) && m[name] == level by {
        assert(m.contains_key(name) && m[name] == level);
        assert forall|other: Seq<char>| #[trigger] m.contains_key(other) implies m[other] < m[name]
            || (m[other] == m[name] && text_le(name, other)) by {
            assert(has_level(fields, "enchantments"@, other, m[other] as int));
        }
        assert(is_top(m, name));
        lemma_top_is_unique(m, name);
    }
    if let Some((name, level)) = top(m) {
        let chosen = choose|n: Seq<char>| is_top(m, n);
        assert(is_top(m, name) && m[name] == level);
        assert(has_level(fields, "enchantments"@, name, level as int));
        assert forall|other: Seq<char>, l: int| #[trigger]
            has_level(fields, "enchantments"@, other, l) implies l < level || (l == level
            && text_le(name, other)) by {
            assert(m.contains_key(other) && m[other] == l);
        }
        assert(is_highest(fields, name, level as int));
    } else {
        if m.dom().len() > 0 {
            lemma_some_top(m);
        }
        assert forall|name: Seq<char>, level: int|
            !#[trigger] has_level(fields, "enchantments"@, name, level) by {
            if has_level(fields, "enchantments"@, name, level) {
                assert(m.dom().contains(name));
            }
        }
    }
}

/// Where there are names, one of them is at the top.
proof fn lemma_some_top(m: Map<Seq<char>, i64>)
    requires
        m.dom().finite(),
        m.dom().len() > 0,
    ensures
        exists|name: Seq<char>| is_top(m, name),
    decreases m.dom().len(),
{
    law_text_order_is_total();
    let le = by_text();
    let k = m.dom().choose();
    assert(m.dom().contains(k));
    assert(le(k, k));
    let rest = m.remove(k);
    if rest.dom().len() == 0 {
        assert forall|other: Seq<char>| #[trigger] m.contains_key(other) implies m[other] < m[k]
            || (m[other] == m[k] && text_le(k, other)) by {
            if other != k {
                assert(rest.dom().contains(other));
            }
        }
        assert(is_top(m, k));
    } else {
        lemma_some_top(rest);
        let best = choose|name: Seq<char>| is_top(rest, name);
        let wins = m[best] < m[k] || (m[best] == m[k] && text_le(k, best));
        let winner = if wins {
            k
        } else {
            best
        };
        assert(le(k, best) || le(best, k));
        assert forall|other: Seq<char>| #[trigger] m.contains_key(other) implies m[other]
            < m[winner] || (m[other] == m[winner] && text_le(winner, other)) by {
            if other != k {
                assert(rest.contains_key(other));
                if wins && m[other] == m[best] && m[best] == m[k] {
                    assert(le(k, best) && le(best, other));
                    assert(le(k, other));
                }
            }
        }
        assert(is_top(m, winner));
    }
}

/// Of two items with attributes, what is hashed for the coarser key is the
/// same exactly where they have the same id and agree on reforge,
/// recombobulation, stars, hot potato books and highest enchantment.
pub proof fn law_major_keys_tell_tags_apart(
    id: Seq<char>,
    a: Map<Seq<char>, Tree>,
    other_id: Seq<char>,
    b: Map<Seq<char>, Tree>,
)
    requires
        modifiers(Some(Tree::Compound(a))).enchantments.dom().finite(),
        modifiers(Some(Tree::Compound(b))).enchantments.dom().finite(),
    ensures
        ({
            let m = modifiers(Some(Tree::Compound(a)));
            let o = modifiers(Some(Tree::Compound(b)));
            &&& major_bytes(id, m) == major_bytes(other_id, o) <==> id == other_id
                && same_major_tags(a, b)
            &&& major_key(id, Some(Tree::Compound(a))).0 == DefaultHasher::spec_finish(
                seq![major_bytes(id, m)],
            )
        }),
{
    let m = modifiers(Some(Tree::Compound(a)));
    let o = modifiers(Some(Tree::Compound(b)));
    lemma_same_counts(a, b);
    law_highest_enchantment(a);
    law_highest_enchantment(b);
    if major_bytes(id, m) == major_bytes(other_id, o) {
        law_major_encoding_tells_items_apart(id, m, other_id, o);
        assert(same_major_tags(a, b));
    }
    if same_major_tags(a, b) {
        assert(top(m.enchantments) == top(o.enchantments)) by {
            if let Some((name, level)) = top(m.enchantments) {
                assert(is_highest(a, name, level as int));
                assert(is_highest(b, name, level as int));
            }
            if let Some((name, level)) = top(o.enchantments) {
                assert(is_highest(b, name, level as int));
                assert(is_highest(a, name, level as int));
            }
        }
    }
}

/// An item without attributes, or with attributes that are no compound, has
/// the keys of one with an empty compound.
pub proof fn law_no_attributes_count_as_empty_ones(id: Seq<char>, attributes: Option<Tree>)
    requires
        !(attributes matches Some(Tree::Compound(_))),
    ensures
        exact_key(id, attributes) == exact_key(id, Some(Tree::Compound(Map::empty()))),
        major_key(id, attributes) == major_key(id, Some(Tree::Compound(Map::empty()))),
{
}

} // verus!
