//! What reports of past sales mean, field by field.

use crate::calendar::timestamp_millis;
use crate::cofl::{
    enchantment_fields, flat_fields, flat_number, flat_text, named_enchantments, page_reported,
    price_paid, reconstructed_fields, reported, sale_attributes, short_attributes, snake, spelled,
    CoflEnchantment, CoflSoldAuction, EnchantmentKind, HistoricalSale, ReconstructedAttributes,
};
use crate::fingerprint::modifiers;
use crate::nbt::Tree;
use crate::parser::{base64_decoded, bytes_finding, gunzipped};
use crate::table::StringTable;
use crate::tags::{has_level, has_number, has_text, law_modifiers_come_from_their_tags};
use crate::text::{integer_within, lower_case, upper_case};
use vstd::prelude::*;

verus! {

/// The names of the attributes are all different.
proof fn lemma_names_differ()
    ensures
        "modifier"@.len() == 8,
        "rarity_upgrades"@.len() == 15,
        "hot_potato_count"@.len() == 16,
        "art_of_war_count"@.len() == 16,
        "hot_potato_count"@[0] == 'h',
        "art_of_war_count"@[0] == 'a',
        "dungeon_item_level"@.len() == 18,
        "talisman_enrichment"@.len() == 19,
        "skin"@.len() == 4,
        "gems"@.len() == 4,
        "skin"@[0] == 's',
        "gems"@[0] == 'g',
        "runes"@.len() == 5,
        "enchantments"@.len() == 12,
        "ability_scroll"@.len() == 14,
{
    reveal_strlit("modifier");
    reveal_strlit("rarity_upgrades");
    reveal_strlit("hot_potato_count");
    reveal_strlit("art_of_war_count");
    reveal_strlit("dungeon_item_level");
    reveal_strlit("talisman_enrichment");
    reveal_strlit("skin");
    reveal_strlit("gems");
    reveal_strlit("runes");
    reveal_strlit("enchantments");
    reveal_strlit("ability_scroll");
}

/// Under each name stands the last level that the list gives it.
proof fn lemma_enchantment_fields(list: Seq<(Seq<char>, i32)>)
    ensures
        forall|k: Seq<char>| #[trigger]
            enchantment_fields(list).contains_key(k) <==> exists|i: int|
                0 <= i < list.len() && (#[trigger] list[i]).0 == k,
        forall|i: int|
            0 <= i < list.len() && (forall|j: int|
                i < j < list.len() ==> (#[trigger] list[j]).0 != list[i].0)
                ==> enchantment_fields(list)[(#[trigger] list[i]).0] == Tree::Int(list[i].1),
    decreases list.len(),
{
    if list.len() > 0 {
        let shorter = list.drop_last();
        let n = list.len() - 1;
        lemma_enchantment_fields(shorter);
        assert forall|k: Seq<char>| #[trigger]
            enchantment_fields(list).contains_key(k) <==> exists|i: int|
                0 <= i < list.len() && (#[trigger] list[i]).0 == k by {
            if enchantment_fields(list).contains_key(k) {
                if k == list[n].0 {
                } else {
                    let i = choose|i: int| 0 <= i < shorter.len() && (#[trigger] shorter[i]).0 == k;
                    assert(list[i].0 == k);
                }
            }
            if exists|i: int| 0 <= i < list.len() && (#[trigger] list[i]).0 == k {
                let i = choose|i: int| 0 <= i < list.len() && (#[trigger] list[i]).0 == k;
                if i < n {
                    assert(shorter[i].0 == k);
                }
            }
        }
        assert forall|i: int|
            0 <= i < list.len() && (forall|j: int|
                i < j < list.len() ==> (#[trigger] list[j]).0
                    != list[i].0) implies enchantment_fields(list)[(#[trigger] list[i]).0]
            == Tree::Int(list[i].1) by {
            if i < n {
                assert(list[n].0 != list[i].0);
                assert(shorter[i] == list[i]);
                assert forall|j: int| i < j < shorter.len() implies (#[trigger] shorter[j]).0
                    != shorter[i].0 by {
                    assert(list[j].0 != list[i].0);
                }
            }
        }
    }
}

/// The modifiers of a sale without real attributes are those that its
/// report gives, each from a field of its own: the reforge, enrichment and
/// skin as they are spelled, stars and hot potato books as they are counted
/// or zero, recombobulation and the art of war where their count is one or
/// more, and each enchantment with the last level given for it. It has no
/// runes, gems or scrolls. Where the real attributes are known, they count
/// and nothing else does.
pub proof fn law_reconstructed_modifiers(sale: HistoricalSale)
    ensures
        sale.extra_attributes matches Some(v) ==> sale_attributes(sale) == v.tree(),
        sale.extra_attributes is None ==> {
            let r = sale.reconstructed;
            let list = r.enchantments@;
            let m = modifiers(Some(sale_attributes(sale)));
            &&& sale_attributes(sale) is Compound
            &&& m.reforge == match r.reforge {
                Some(s) => Some(s@),
                None => None,
            }
            &&& m.enrichment == match r.talisman_enrichment {
                Some(s) => Some(s@),
                None => None,
            }
            &&& m.skin == match r.skin {
                Some(s) => Some(s@),
                None => None,
            }
            &&& m.recombobulated <==> (r.rarity_upgrades matches Some(n) && n >= 1)
            &&& m.art_of_war <==> (r.art_of_war_count matches Some(n) && n >= 1)
            &&& m.stars == match r.dungeon_item_level {
                Some(n) => n as i64,
                None => 0,
            }
            &&& m.hot_potato_books == match r.hot_potato_count {
                Some(n) => n as i64,
                None => 0,
            }
            &&& forall|k: Seq<char>| #[trigger]
                m.enchantments.contains_key(k) <==> exists|i: int|
                    0 <= i < list.len() && (#[trigger] list[i]).0@ == k
            &&& forall|i: int|
                0 <= i < list.len() && (forall|j: int|
                    i < j < list.len() ==> (#[trigger] list[j]).0@ != list[i].0@)
                    ==> m.enchantments[(#[trigger] list[i]).0@] == list[i].1
            &&& m.runes == Map::<Seq<char>, i64>::empty()
            &&& m.gems.dom() == Set::<Seq<char>>::empty()
            &&& m.scrolls.len() == 0
        },
{
    if sale.extra_attributes is None {
        let r = sale.reconstructed;
        let list = r.enchantments@;
        let names = spelled(list);
        let fields = reconstructed_fields(r);
        let m = modifiers(Some(sale_attributes(sale)));
        lemma_names_differ();
        lemma_enchantment_fields(names);
        law_modifiers_come_from_their_tags(fields);
        assert(!fields.contains_key("runes"@));
        assert(!fields.contains_key("gems"@));
        assert(!fields.contains_key("ability_scroll"@));
        assert(m.runes =~= Map::<Seq<char>, i64>::empty());
        assert(m.gems.dom() =~= Set::<Seq<char>>::empty());
        assert(m.scrolls.to_multiset().len() == 0) by {
            broadcast use vstd::seq_lib::group_to_multiset_ensures;

        }
        assert(m.scrolls.len() == 0) by {
            broadcast use vstd::seq_lib::group_to_multiset_ensures;

        }
        assert forall|k: Seq<char>| #[trigger]
            m.enchantments.contains_key(k) <==> exists|i: int|
                0 <= i < list.len() && (#[trigger] list[i]).0@ == k by {
            let inner = enchantment_fields(names);
            if list.len() == 0 {
                assert(!fields.contains_key("enchantments"@));
            } else {
                assert(fields["enchantments"@] == Tree::Compound(inner));
                if exists|i: int| 0 <= i < list.len() && (#[trigger] list[i]).0@ == k {
                    let i = choose|i: int| 0 <= i < list.len() && (#[trigger] list[i]).0@ == k;
                    assert(names[i].0 == k);
                    lemma_levels_are_numbers(names, k);
                }
                if m.enchantments.contains_key(k) {
                    assert(inner.contains_key(k));
                    let i = choose|i: int| 0 <= i < names.len() && (#[trigger] names[i]).0 == k;
                    assert(list[i].0@ == k);
                }
            }
        }
        assert forall|i: int|
            0 <= i < list.len() && (forall|j: int|
                i < j < list.len() ==> (#[trigger] list[j]).0@
                    != list[i].0@) implies m.enchantments[(#[trigger] list[i]).0@]
            == list[i].1 by {
            assert(fields["enchantments"@] == Tree::Compound(enchantment_fields(names)));
            assert forall|j: int| i < j < names.len() implies (#[trigger] names[j]).0
                != names[i].0 by {
                assert(list[j].0@ != list[i].0@);
            }
            assert(names[i].0 == list[i].0@);
            assert(enchantment_fields(names)[names[i].0] == Tree::Int(names[i].1));
            assert(enchantment_fields(names).contains_key(names[i].0));
            assert(has_level(fields, "enchantments"@, list[i].0@, list[i].1 as int));
        }
    }
}

proof fn lemma_levels_are_numbers(list: Seq<(Seq<char>, i32)>, k: Seq<char>)
    requires
        enchantment_fields(list).contains_key(k),
    ensures
        enchantment_fields(list)[k] is Int,
    decreases list.len(),
{
    if list.len() > 0 && list.last().0 != k {
        lemma_levels_are_numbers(list.drop_last(), k);
    }
}

/// The report's flattened field `key` holds the text `s`, which is not empty.
pub open spec fn has_flat_text(
    flat: Option<StringTable<Option<String>>>,
    key: Seq<char>,
    s: Seq<char>,
) -> bool {
    &&& flat is Some
    &&& flat->0@.contains_key(key)
    &&& flat->0@[key] matches Some(text) && text@ == s
    &&& s.len() > 0
}

/// The report's flattened field `key` spells the number `n` of thirty-two
/// bits.
pub open spec fn has_flat_number(
    flat: Option<StringTable<Option<String>>>,
    key: Seq<char>,
    n: int,
) -> bool {
    exists|s: Seq<char>| #[trigger]
        has_flat_text(flat, key, s) && integer_within(s, i32::MIN as int, i32::MAX as int) == Some(
            n,
        )
}

/// What a report says of a sale. The price is the listed one of a sale at
/// once and the highest bid of any other, and never zero. The item is the
/// one that the report names, or else the one that was asked for. The sale
/// dates from the end of the auction, or from zero where that is not to be
/// read. Each modifier comes from the flattened field of its own name, and
/// the real attributes from the item bytes.
pub proof fn law_what_a_report_says(sale: HistoricalSale, hint: Seq<char>, raw: CoflSoldAuction)
    requires
        reported(sale, hint, raw),
    ensures
        raw.tag matches Some(tag) ==> sale.item_tag@ == tag@,
        raw.tag is None ==> sale.item_tag@ == hint,
        raw.bin == Some(true) ==> raw.starting_bid == Some(sale.sale_price),
        raw.bin != Some(true) ==> raw.highest_bid_amount == Some(sale.sale_price),
        sale.sale_price > 0,
        raw.end is None ==> sale.sold_at == 0,
        raw.end matches Some(end) ==> {
            let millis = timestamp_millis(end@);
            let readable = millis is Some && i64::MIN <= millis->0 <= i64::MAX;
            &&& readable ==> sale.sold_at == millis->0
            &&& !readable ==> sale.sold_at == 0
        },
        ({
            let r = sale.reconstructed;
            let flat = raw.flattened_nbt;
            &&& forall|s: Seq<char>|
                (r.reforge matches Some(t) && t@ == s) <==> #[trigger] has_flat_text(
                    flat,
                    "modifier"@,
                    s,
                )
            &&& forall|s: Seq<char>|
                (r.talisman_enrichment matches Some(t) && t@ == s) <==> #[trigger] has_flat_text(
                    flat,
                    "talisman_enrichment"@,
                    s,
                )
            &&& forall|s: Seq<char>|
                (r.skin matches Some(t) && t@ == s) <==> #[trigger] has_flat_text(
                    flat,
                    "skin"@,
                    s,
                )
            &&& forall|n: int|
                (r.hot_potato_count matches Some(k) && k == n) <==> #[trigger] has_flat_number(
                    flat,
                    "hot_potato_count"@,
                    n,
                )
            &&& forall|n: int|
                (r.rarity_upgrades matches Some(k) && k == n) <==> #[trigger] has_flat_number(
                    flat,
                    "rarity_upgrades"@,
                    n,
                )
            &&& forall|n: int|
                (r.dungeon_item_level matches Some(k) && k == n) <==> #[trigger] has_flat_number(
                    flat,
                    "dungeon_item_level"@,
                    n,
                )
            &&& forall|n: int|
                (r.art_of_war_count matches Some(k) && k == n) <==> #[trigger] has_flat_number(
                    flat,
                    "art_of_war_count"@,
                    n,
                )
        }),
        raw.enchantments is None ==> sale.reconstructed.enchantments@.len() == 0,
        raw.enchantments matches Some(list) ==> spelled(sale.reconstructed.enchantments@)
            == named_enchantments(list@),
        raw.short_item_bytes is None ==> sale.extra_attributes is None,
        raw.short_item_bytes matches Some(bytes) ==> match short_attributes(bytes@) {
            Some(known) => sale.extra_attributes is Some && sale.extra_attributes->0.tree()
                == Tree::Compound(known),
            None => sale.extra_attributes is None,
        },
{
    let flat = raw.flattened_nbt;
    lemma_flat_number(flat, "hot_potato_count"@);
    lemma_flat_number(flat, "rarity_upgrades"@);
    lemma_flat_number(flat, "dungeon_item_level"@);
    lemma_flat_number(flat, "art_of_war_count"@);
    assert(raw.enchantments is None ==> spelled(sale.reconstructed.enchantments@).len() == 0);
}

proof fn lemma_flat_number(flat: Option<StringTable<Option<String>>>, key: Seq<char>)
    ensures
        forall|n: int| #[trigger]
            has_flat_number(flat, key, n) <==> flat_number(flat_fields(flat), key) == Some(n),
{
    assert forall|n: int| #[trigger]
        has_flat_number(flat, key, n) <==> flat_number(flat_fields(flat), key) == Some(n) by {
        if let Some(s) = flat_text(flat_fields(flat), key) {
            assert(has_flat_text(flat, key, s));
        }
    }
}

/// A report tells of a sale exactly where its price is there and not zero.
pub proof fn law_when_there_was_a_sale(raw: CoflSoldAuction)
    ensures
        price_paid(raw) is Some <==> if raw.bin == Some(true) {
            raw.starting_bid matches Some(p) && p > 0
        } else {
            raw.highest_bid_amount matches Some(p) && p > 0
        },
{
}

/// The item bytes of a report are read as a live auction has them, gzipped
/// NBT, and where that is no item, as plain NBT. If neither holds an item,
/// or the text is no base64, the real attributes are not known.
pub proof fn law_real_attributes_of_a_report(text: Seq<char>, bytes: Seq<u8>)
    ensures
        base64_decoded(text) is None ==> short_attributes(text) is None,
        base64_decoded(text) == Some(bytes) ==> {
            let plain = bytes_finding(bytes);
            let zipped = gunzipped(bytes) is Some && bytes_finding(gunzipped(bytes)->0) is Item;
            &&& zipped ==> short_attributes(text) == Some(
                bytes_finding(gunzipped(bytes)->0)->attributes,
            )
            &&& !zipped && plain is Item ==> short_attributes(text) == Some(plain->attributes)
            &&& !zipped && !(plain is Item) ==> short_attributes(text) is None
        },
{
}

/// A name in Pascal case, letter by letter: a capital becomes small, behind
/// an underscore unless it comes first; any other ASCII character stays.
/// Other letters follow the same rule, as far as they have a small form.
pub proof fn law_snake_case_letter_by_letter(s: Seq<char>, c: char)
    ensures
        snake(Seq::<char>::empty()) == Seq::<char>::empty(),
        (c as u32) < 128 && !('A' <= c <= 'Z') ==> snake(s.push(c)) == snake(s).push(c),
        'A' <= c <= 'Z' && s.len() == 0 ==> snake(s.push(c)) == seq![((c as u32 + 32) as char)],
        'A' <= c <= 'Z' && s.len() > 0 ==> snake(s.push(c)) == snake(s).push('_').push(
            (c as u32 + 32) as char,
        ),
        upper_case(c) && s.len() > 0 ==> snake(s.push(c)) == snake(s).push('_') + lower_case(c),
        upper_case(c) && s.len() == 0 ==> snake(s.push(c)) == lower_case(c),
        !upper_case(c) ==> snake(s.push(c)) == snake(s) + lower_case(c),
{
    assert(s.push(c).drop_last() =~= s);
    assert(snake(s.push(c)) =~= if upper_case(c) && s.len() > 0 {
        snake(s).push('_') + lower_case(c)
    } else {
        snake(s) + lower_case(c)
    });
    if (c as u32) < 128 {
        assert(upper_case(c) <==> 'A' <= c <= 'Z');
        assert(snake(s) + seq![c] =~= snake(s).push(c));
    }
}

/// The attributes that stand for a report hold each modifier that it gives
/// under the name that a live auction has for it, and nothing else.
pub proof fn law_reconstructed_attributes(r: ReconstructedAttributes)
    ensures
        ({
            let fields = reconstructed_fields(r);
            &&& forall|s: Seq<char>|
                (r.reforge matches Some(t) && t@ == s) <==> #[trigger] has_text(
                    fields,
                    "modifier"@,
                    s,
                )
            &&& forall|s: Seq<char>|
                (r.talisman_enrichment matches Some(t) && t@ == s) <==> #[trigger] has_text(
                    fields,
                    "talisman_enrichment"@,
                    s,
                )
            &&& forall|s: Seq<char>|
                (r.skin matches Some(t) && t@ == s) <==> #[trigger] has_text(fields, "skin"@, s)
            &&& forall|n: int|
                (r.rarity_upgrades matches Some(k) && k == n) <==> #[trigger] has_number(
                    fields,
                    "rarity_upgrades"@,
                    n,
                )
            &&& forall|n: int|
                (r.hot_potato_count matches Some(k) && k == n) <==> #[trigger] has_number(
                    fields,
                    "hot_potato_count"@,
                    n,
                )
            &&& forall|n: int|
                (r.dungeon_item_level matches Some(k) && k == n) <==> #[trigger] has_number(
                    fields,
                    "dungeon_item_level"@,
                    n,
                )
            &&& forall|n: int|
                (r.art_of_war_count matches Some(k) && k == n) <==> #[trigger] has_number(
                    fields,
                    "art_of_war_count"@,
                    n,
                )
            &&& fields.contains_key("enchantments"@) <==> r.enchantments@.len() > 0
            &&& forall|k: Seq<char>| #[trigger]
                fields.contains_key(k) ==> {
                    ||| k == "modifier"@ && r.reforge is Some
                    ||| k == "talisman_enrichment"@ && r.talisman_enrichment is Some
                    ||| k == "skin"@ && r.skin is Some
                    ||| k == "rarity_upgrades"@ && r.rarity_upgrades is Some
                    ||| k == "hot_potato_count"@ && r.hot_potato_count is Some
                    ||| k == "dungeon_item_level"@ && r.dungeon_item_level is Some
                    ||| k == "art_of_war_count"@ && r.art_of_war_count is Some
                    ||| k == "enchantments"@
                }
        }),
{
    lemma_names_differ();
}

/// The enchantments of a report, one by one: a text is put in snake case, a
/// number gets a name of its own, and what has no name is left out.
pub proof fn law_enchantments_one_by_one(list: Seq<CoflEnchantment>, more: CoflEnchantment)
    ensures
        named_enchantments(Seq::<CoflEnchantment>::empty()).len() == 0,
        ({
            let before = named_enchantments(list);
            let after = named_enchantments(list.push(more));
            match more.kind {
                EnchantmentKind::Text(s) => {
                    &&& s@.len() > 0 ==> after == before.push((snake(s@), more.level))
                    &&& s@.len() == 0 ==> after == before
                },
                EnchantmentKind::Number(n) => after == before.push(
                    ("unknown_"@ + n@, more.level),
                ),
                EnchantmentKind::Other => after == before,
            }
        }),
{
    assert(list.push(more).drop_last() =~= list);
}

/// A page of reports gives one sale for each that tells of one, in their
/// order: the sale of a report stands behind those of the reports before it.
pub proof fn law_sales_of_a_page(
    sales: Seq<HistoricalSale>,
    hint: Seq<char>,
    page: Seq<CoflSoldAuction>,
)
    requires
        page_reported(sales, hint, page),
    ensures
        sales.len() == page.filter(|raw: CoflSoldAuction| price_paid(raw) is Some).len(),
        forall|i: int|
            0 <= i < page.len() && price_paid(#[trigger] page[i]) is Some ==> {
                let n = page.take(i).filter(|raw: CoflSoldAuction| price_paid(raw) is Some).len();
                n < sales.len() && reported(sales[n as int], hint, page[i])
            },
    decreases page.len(),
{
    reveal(Seq::filter);
    let sold = |raw: CoflSoldAuction| price_paid(raw) is Some;
    if page.len() > 0 {
        let shorter = page.drop_last();
        let last = page.len() - 1;
        let fewer = if price_paid(page.last()) is Some {
            sales.drop_last()
        } else {
            sales
        };
        law_sales_of_a_page(fewer, hint, shorter);
        assert(page.take(last) =~= shorter);
        assert forall|i: int|
            0 <= i < page.len() && price_paid(#[trigger] page[i]) is Some implies {
            let n = page.take(i).filter(sold).len();
            n < sales.len() && reported(sales[n as int], hint, page[i])
        } by {
            if i < last {
                assert(shorter[i] == page[i]);
                assert(shorter.take(i) =~= page.take(i));
            }
        }
    }
}

} // verus!
