//! Historical sales, as a price service reports them.
//!
//! A reported sale is normalized, and its item's keys are computed as those
//! of a live auction are. Where the item's own NBT can be decoded, it
//! counts; else the modifiers are put together from the report's separate
//! fields, which hold fewer of them.

use crate::calendar::{fits_i64, parse_rfc3339_millis, timestamp_millis};
use crate::fingerprint::{
    exact_key, fingerprint, major_key, major_modifier_key, modifiers, tree_of, Fingerprint,
};
use crate::nbt::{Compound, Tree, Value};
use crate::parser::{
    base64_decode, base64_decoded, bytes_finding, decode_item_bytes, decode_nbt_bytes, gunzipped,
    Finding, ParsedItem,
};
use crate::table::StringTable;
use crate::text::{
    decimal, ends_in, ends_with, integer_within, is_upper_case, law_decimal_reads_back, lower_case,
    parse_i32, push_decimal, to_chars, to_lower_case, upper_case,
};
use vstd::prelude::*;

verus! {

/// The least time between two requests to the price service, in
/// milliseconds. The service allows a hundred requests a minute.
pub const COFL_REQUEST_DELAY_MILLIS: u64 = 650;

/// A past sale.
#[derive(Debug, Clone, PartialEq)]
pub struct HistoricalSale {
    pub item_tag: String,
    pub sale_price: u64,
    /// Unix milliseconds; zero where it is not known.
    pub sold_at: i64,
    /// The item's real attributes. Where they are known, they count and
    /// `reconstructed` does not.
    pub extra_attributes: Option<Value>,
    /// What the report's separate fields say of the item.
    pub reconstructed: ReconstructedAttributes,
}

/// Modifiers put together from a report's separate fields. Gems, runes and
/// ability scrolls are not among them.
#[derive(Debug, Clone, Default, PartialEq)]
pub struct ReconstructedAttributes {
    pub reforge: Option<String>,
    pub enchantments: Vec<(String, i32)>,
    pub hot_potato_count: Option<i32>,
    pub rarity_upgrades: Option<i32>,
    pub dungeon_item_level: Option<i32>,
    pub art_of_war_count: Option<i32>,
    pub talisman_enrichment: Option<String>,
    pub skin: Option<String>,
}

/// How a report names an enchantment.
#[derive(Debug, Clone, PartialEq, Eq)]
pub enum EnchantmentKind {
    Text(String),
    /// A number, as it is written.
    Number(String),
    Other,
}

/// An enchantment in a report.
#[derive(Debug, Clone, PartialEq, Eq)]
pub struct CoflEnchantment {
    pub kind: EnchantmentKind,
    pub level: i32,
}

/// A sale as it is reported. Any field may be missing.
pub struct CoflSoldAuction {
    pub tag: Option<String>,
    pub starting_bid: Option<u64>,
    pub highest_bid_amount: Option<u64>,
    pub bin: Option<bool>,
    pub end: Option<String>,
    pub enchantments: Option<Vec<CoflEnchantment>>,
    pub short_item_bytes: Option<String>,
    pub flattened_nbt: Option<StringTable<Option<String>>>,
}

// ---------------------------------------------------------------------
// Reading a report
// ---------------------------------------------------------------------

/// `s` in small letters, with an underscore before every capital but one at
/// the very beginning.
pub open spec fn snake(s: Seq<char>) -> Seq<char>
    decreases s.len(),
{
    if s.len() == 0 {
        Seq::empty()
    } else {
        let before = snake(s.drop_last());
        let parted = if upper_case(s.last()) && s.len() > 1 {
            before.push('_')
        } else {
            before
        };
        parted + lower_case(s.last())
    }
}

/// Turns a name in Pascal case into snake case.
pub fn pascal_to_snake(input: &str) -> (out: String)
    ensures
        out@ == snake(input@),
{
    let chars = to_chars(input);
    let mut out = String::new();
    let n: usize = chars.len();
    assert(chars@.take(0) =~= Seq::<char>::empty());
    for i in 0..n
        invariant
            n == chars@.len(),
            out@ == snake(chars@.take(i as int)),
    {
        let c = chars[i];
        assert(chars@.take(i + 1).drop_last() =~= chars@.take(i as int));
        if is_upper_case(c) && i > 0 {
            out.push('_');
        }
        let small = to_lower_case(c);
        let ghost start = out@;
        let m: usize = small.len();
        assert(start + small@.take(0) =~= start);
        for j in 0..m
            invariant
                m == small@.len(),
                out@ == start + small@.take(j as int),
        {
            out.push(small[j]);
            assert(start + small@.take(j + 1) =~= (start + small@.take(j as int)).push(
                small@[j as int],
            ));
        }
        assert(small@.take(m as int) =~= small@);
    }
    assert(chars@.take(n as int) =~= input@);
    out
}

/// A name that is in snake case already stays as it is.
pub proof fn law_snake_case_stays(s: Seq<char>)
    requires
        forall|i: int|
            0 <= i < s.len() ==> !upper_case(#[trigger] s[i]) && lower_case(s[i]) == seq![s[i]],
    ensures
        snake(s) == s,
    decreases s.len(),
{
    if s.len() > 0 {
        assert forall|i: int| 0 <= i < s.drop_last().len() implies !upper_case(
            #[trigger] s.drop_last()[i],
        ) && lower_case(s.drop_last()[i]) == seq![s.drop_last()[i]] by {
            assert(s.drop_last()[i] == s[i]);
        }
        law_snake_case_stays(s.drop_last());
        assert(!upper_case(s[s.len() - 1]));
        assert(s =~= s.drop_last() + seq![s.last()]);
    }
}

/// The name of an enchantment; none where the report gives none.
pub open spec fn label(kind: EnchantmentKind) -> Option<Seq<char>> {
    match kind {
        EnchantmentKind::Text(s) => if s@.len() > 0 {
            Some(snake(s@))
        } else {
            None
        },
        EnchantmentKind::Number(n) => Some("unknown_"@ + n@),
        EnchantmentKind::Other => None,
    }
}

/// The name of an enchantment. A number gets a name of its own, so that
/// equal numbers stay together.
pub fn value_to_snake_case_label(kind: &EnchantmentKind) -> (name: Option<String>)
    ensures
        match name {
            Some(s) => label(*kind) == Some(s@),
            None => label(*kind) is None,
        },
{
    match kind {
        EnchantmentKind::Text(s) => if s.as_str().is_empty() {
            None
        } else {
            Some(pascal_to_snake(s.as_str()))
        },
        EnchantmentKind::Number(n) => {
            let mut name = "unknown_".to_owned();
            name.append(n.as_str());
            Some(name)
        },
        EnchantmentKind::Other => None,
    }
}

/// The fields of a report's flattened NBT.
pub open spec fn flat_fields(flat: Option<StringTable<Option<String>>>) -> Map<
    Seq<char>,
    Option<String>,
> {
    match flat {
        Some(table) => table@,
        None => Map::empty(),
    }
}

/// The text under `key`, where it is not empty.
pub open spec fn flat_text(fields: Map<Seq<char>, Option<String>>, key: Seq<char>) -> Option<
    Seq<char>,
> {
    if fields.contains_key(key) {
        match fields[key] {
            Some(s) => if s@.len() > 0 {
                Some(s@)
            } else {
                None
            },
            None => None,
        }
    } else {
        None
    }
}

/// The number under `key`, where there is one of thirty-two bits.
pub open spec fn flat_number(fields: Map<Seq<char>, Option<String>>, key: Seq<char>) -> Option<
    int,
> {
    match flat_text(fields, key) {
        Some(s) => integer_within(s, i32::MIN as int, i32::MAX as int),
        None => None,
    }
}

/// The text under `key`, where it is not empty.
pub fn flat_str(flat: &Option<StringTable<Option<String>>>, key: &str) -> (text: Option<String>)
    ensures
        match text {
            Some(s) => flat_text(flat_fields(*flat), key@) == Some(s@),
            None => flat_text(flat_fields(*flat), key@) is None,
        },
{
    match flat {
        Some(table) => match table.get(key) {
            Some(Some(s)) => if s.as_str().is_empty() {
                None
            } else {
                Some(s.clone())
            },
            _ => None,
        },
        None => None,
    }
}

/// The number under `key`, where there is one of thirty-two bits.
pub fn flat_int(flat: &Option<StringTable<Option<String>>>, key: &str) -> (n: Option<i32>)
    ensures
        match n {
            Some(n) => flat_number(flat_fields(*flat), key@) == Some(n as int),
            None => flat_number(flat_fields(*flat), key@) is None,
        },
{
    match flat_str(flat, key) {
        Some(s) => parse_i32(s.as_str()),
        None => None,
    }
}

/// The named enchantments of a report, with their levels.
pub open spec fn named_enchantments(list: Seq<CoflEnchantment>) -> Seq<(Seq<char>, i32)>
    decreases list.len(),
{
    if list.len() == 0 {
        Seq::empty()
    } else {
        let before = named_enchantments(list.drop_last());
        match label(list.last().kind) {
            Some(name) => before.push((name, list.last().level)),
            None => before,
        }
    }
}

/// Enchantments by the text of their names.
pub open spec fn spelled(list: Seq<(String, i32)>) -> Seq<(Seq<char>, i32)> {
    Seq::new(list.len(), |i: int| (list[i].0@, list[i].1))
}

fn label_enchantments(list: Vec<CoflEnchantment>) -> (labelled: Vec<(String, i32)>)
    ensures
        spelled(labelled@) == named_enchantments(list@),
{
    let ghost all = list@;
    let mut labelled: Vec<(String, i32)> = Vec::new();
    let n: usize = list.len();
    assert(spelled(labelled@) =~= named_enchantments(all.take(0)));
    for i in 0..n
        invariant
            n == list@.len(),
            all == list@,
            spelled(labelled@) == named_enchantments(all.take(i as int)),
    {
        assert(all.take(i + 1).drop_last() =~= all.take(i as int));
        let ghost before = spelled(labelled@);
        if let Some(name) = value_to_snake_case_label(&list[i].kind) {
            let ghost text = name@;
            let level: i32 = list[i].level;
            labelled.push((name, level));
            assert(spelled(labelled@) =~= before.push((text, level)));
        }
    }
    assert(all.take(n as int) =~= all);
    labelled
}

/// The attributes in encoded item NBT: gzipped as live auctions have it, or
/// else plain.
pub open spec fn short_attributes(text: Seq<char>) -> Option<Map<Seq<char>, Tree>> {
    match base64_decoded(text) {
        None => None,
        Some(bytes) => {
            let zipped = match gunzipped(bytes) {
                Some(inner) => bytes_finding(inner),
                None => Finding::Misshapen,
            };
            match (zipped, bytes_finding(bytes)) {
                (Finding::Item { attributes, .. }, _) => Some(attributes),
                (_, Finding::Item { attributes, .. }) => Some(attributes),
                _ => None,
            }
        },
    }
}

/// Decodes a report's item NBT, gzipped or plain.
pub fn decode_short_item_bytes(encoded: &str) -> (attributes: Option<Value>)
    ensures
        match attributes {
            Some(v) => v.tree() is Compound && short_attributes(encoded@) == Some(
                v.tree()->Compound_0,
            ),
            None => short_attributes(encoded@) is None,
        },
{
    if let Ok(decoded) = decode_item_bytes(encoded) {
        return decoded.extra_attributes;
    }
    let bytes = match base64_decode(encoded) {
        Ok(bytes) => bytes,
        Err(_) => return None,
    };
    match decode_nbt_bytes(bytes.as_slice()) {
        Ok(decoded) => decoded.extra_attributes,
        Err(_) => None,
    }
}

/// What was paid: the listed price of a direct sale, or else the highest
/// bid. Nothing, where there was no sale.
pub open spec fn price_paid(raw: CoflSoldAuction) -> Option<u64> {
    let price = if raw.bin == Some(true) {
        raw.starting_bid
    } else {
        raw.highest_bid_amount
    };
    match price {
        Some(p) => if p > 0 {
            Some(p)
        } else {
            None
        },
        None => None,
    }
}

/// The text of an optional string.
pub open spec fn text_of(s: Option<String>) -> Option<Seq<char>> {
    match s {
        Some(s) => Some(s@),
        None => None,
    }
}

/// An optional number, unbounded.
pub open spec fn int_of(n: Option<i32>) -> Option<int> {
    match n {
        Some(n) => Some(n as int),
        None => None,
    }
}

/// `sale` is what `raw` reports, for an item with the tag `hint` where the
/// report names none.
pub open spec fn reported(sale: HistoricalSale, hint: Seq<char>, raw: CoflSoldAuction) -> bool {
    let flat = flat_fields(raw.flattened_nbt);
    let r = sale.reconstructed;
    &&& sale.item_tag@ == match raw.tag {
        Some(tag) => tag@,
        None => hint,
    }
    &&& price_paid(raw) == Some(sale.sale_price)
    &&& sale.sold_at == match raw.end {
        Some(end) => match fits_i64(timestamp_millis(end@)) {
            Some(millis) => millis,
            None => 0,
        },
        None => 0,
    }
    &&& match sale.extra_attributes {
        Some(v) => raw.short_item_bytes matches Some(bytes) && v.tree() is Compound
            && short_attributes(bytes@) == Some(v.tree()->Compound_0),
        None => raw.short_item_bytes matches Some(bytes) ==> short_attributes(bytes@) is None,
    }
    &&& text_of(r.reforge) == flat_text(flat, "modifier"@)
    &&& spelled(r.enchantments@) == match raw.enchantments {
        Some(list) => named_enchantments(list@),
        None => Seq::empty(),
    }
    &&& int_of(r.hot_potato_count) == flat_number(flat, "hot_potato_count"@)
    &&& int_of(r.rarity_upgrades) == flat_number(flat, "rarity_upgrades"@)
    &&& int_of(r.dungeon_item_level) == flat_number(flat, "dungeon_item_level"@)
    &&& int_of(r.art_of_war_count) == flat_number(flat, "art_of_war_count"@)
    &&& text_of(r.talisman_enrichment) == flat_text(flat, "talisman_enrichment"@)
    &&& text_of(r.skin) == flat_text(flat, "skin"@)
}

/// Normalizes a report. None where it tells of no sale.
pub fn normalize(item_tag_hint: &str, raw: CoflSoldAuction) -> (sale: Option<HistoricalSale>)
    ensures
        match sale {
            Some(sale) => reported(sale, item_tag_hint@, raw),
            None => price_paid(raw) is None,
        },
{
    let CoflSoldAuction {
        tag,
        starting_bid,
        highest_bid_amount,
        bin,
        end,
        enchantments,
        short_item_bytes,
        flattened_nbt,
    } = raw;
    let item_tag = match tag {
        Some(tag) => tag,
        None => item_tag_hint.to_owned(),
    };
    let bin = match bin {
        Some(bin) => bin,
        None => false,
    };
    let price: Option<u64> = if bin {
        starting_bid
    } else {
        highest_bid_amount
    };
    let sale_price: u64 = match price {
        Some(price) => price,
        None => return None,
    };
    if sale_price == 0 {
        return None;
    }
    let sold_at: i64 = match &end {
        Some(end) => match parse_rfc3339_millis(end.as_str()) {
            Some(millis) => millis,
            None => 0,
        },
        None => 0,
    };
    let extra_attributes = match &short_item_bytes {
        Some(encoded) => decode_short_item_bytes(encoded.as_str()),
        None => None,
    };
    let enchantments = match enchantments {
        Some(list) => label_enchantments(list),
        None => {
            let none: Vec<(String, i32)> = Vec::new();
            assert(spelled(none@) =~= Seq::<(Seq<char>, i32)>::empty());
            none
        },
    };
    let reconstructed = ReconstructedAttributes {
        reforge: flat_str(&flattened_nbt, "modifier"),
        enchantments,
        hot_potato_count: flat_int(&flattened_nbt, "hot_potato_count"),
        rarity_upgrades: flat_int(&flattened_nbt, "rarity_upgrades"),
        dungeon_item_level: flat_int(&flattened_nbt, "dungeon_item_level"),
        art_of_war_count: flat_int(&flattened_nbt, "art_of_war_count"),
        talisman_enrichment: flat_str(&flattened_nbt, "talisman_enrichment"),
        skin: flat_str(&flattened_nbt, "skin"),
    };
    Some(HistoricalSale { item_tag, sale_price, sold_at, extra_attributes, reconstructed })
}

/// `sales` are the sales that the reports of a page tell of, in order.
pub open spec fn page_reported(
    sales: Seq<HistoricalSale>,
    hint: Seq<char>,
    page: Seq<CoflSoldAuction>,
) -> bool
    decreases page.len(),
{
    if page.len() == 0 {
        sales.len() == 0
    } else if price_paid(page.last()) is Some {
        &&& sales.len() > 0
        &&& reported(sales.last(), hint, page.last())
        &&& page_reported(sales.drop_last(), hint, page.drop_last())
    } else {
        page_reported(sales, hint, page.drop_last())
    }
}

/// Normalizes a page of reports; those that tell of no sale are left out.
pub fn normalize_page(item_tag_hint: &str, page: Vec<CoflSoldAuction>) -> (sales: Vec<
    HistoricalSale,
>)
    ensures
        page_reported(sales@, item_tag_hint@, page@),
{
    let ghost all = page@;
    let mut sales: Vec<HistoricalSale> = Vec::new();
    assert(all.take(0) =~= Seq::<CoflSoldAuction>::empty());
    for raw in iter: page
        invariant
            iter.seq() == all,
            page_reported(sales@, item_tag_hint@, all.take(iter.index())),
    {
        let ghost i = iter.index();
        assert(all.take(i + 1).drop_last() =~= all.take(i));
        assert(all.take(i + 1).last() == raw);
        let ghost before = sales@;
        if let Some(sale) = normalize(item_tag_hint, raw) {
            sales.push(sale);
            assert(sales@.drop_last() =~= before);
        }
    }
    assert(all.take(all.len() as int) =~= all);
    sales
}

// ---------------------------------------------------------------------
// Keys of a sale
// ---------------------------------------------------------------------

/// `fields` with a string under `name`, if there is one.
pub open spec fn with_text(
    fields: Map<Seq<char>, Tree>,
    name: Seq<char>,
    text: Option<String>,
) -> Map<Seq<char>, Tree> {
    match text {
        Some(s) => fields.insert(name, Tree::String(s@)),
        None => fields,
    }
}

/// `fields` with an integer under `name`, if there is one.
pub open spec fn with_number(
    fields: Map<Seq<char>, Tree>,
    name: Seq<char>,
    n: Option<i32>,
) -> Map<Seq<char>, Tree> {
    match n {
        Some(n) => fields.insert(name, Tree::Int(n)),
        None => fields,
    }
}

/// Enchantments as a compound; the last level of a name counts.
pub open spec fn enchantment_fields(list: Seq<(Seq<char>, i32)>) -> Map<Seq<char>, Tree>
    decreases list.len(),
{
    if list.len() == 0 {
        Map::empty()
    } else {
        enchantment_fields(list.drop_last()).insert(list.last().0, Tree::Int(list.last().1))
    }
}

/// Attributes with the reconstructed modifiers.
pub open spec fn reconstructed_fields(r: ReconstructedAttributes) -> Map<Seq<char>, Tree> {
    let m1 = with_text(Map::empty(), "modifier"@, r.reforge);
    let m2 = with_number(m1, "rarity_upgrades"@, r.rarity_upgrades);
    let m3 = with_number(m2, "hot_potato_count"@, r.hot_potato_count);
    let m4 = with_number(m3, "dungeon_item_level"@, r.dungeon_item_level);
    let m5 = with_number(m4, "art_of_war_count"@, r.art_of_war_count);
    let m6 = with_text(m5, "talisman_enrichment"@, r.talisman_enrichment);
    let m7 = with_text(m6, "skin"@, r.skin);
    if r.enchantments@.len() > 0 {
        m7.insert("enchantments"@, Tree::Compound(enchantment_fields(spelled(r.enchantments@))))
    } else {
        m7
    }
}

fn set_text(fields: &mut Compound, name: &str, text: &Option<String>)
    ensures
        final(fields).map() == with_text(old(fields).map(), name@, *text),
{
    if let Some(s) = text {
        fields.insert(name.to_owned(), Value::String(s.clone()));
    }
}

fn set_number(fields: &mut Compound, name: &str, n: Option<i32>)
    ensures
        final(fields).map() == with_number(old(fields).map(), name@, n),
{
    if let Some(n) = n {
        fields.insert(name.to_owned(), Value::Int(n));
    }
}

/// Attributes with the reconstructed modifiers.
pub fn build_reconstructed_value(r: &ReconstructedAttributes) -> (value: Value)
    ensures
        value.tree() == Tree::Compound(reconstructed_fields(*r)),
{
    let mut fields = Compound::new();
    set_text(&mut fields, "modifier", &r.reforge);
    set_number(&mut fields, "rarity_upgrades", r.rarity_upgrades);
    set_number(&mut fields, "hot_potato_count", r.hot_potato_count);
    set_number(&mut fields, "dungeon_item_level", r.dungeon_item_level);
    set_number(&mut fields, "art_of_war_count", r.art_of_war_count);
    set_text(&mut fields, "talisman_enrichment", &r.talisman_enrichment);
    set_text(&mut fields, "skin", &r.skin);
    if r.enchantments.len() > 0 {
        let ghost list = spelled(r.enchantments@);
        let mut inner = Compound::new();
        let n: usize = r.enchantments.len();
        assert(list.take(0) =~= Seq::<(Seq<char>, i32)>::empty());
        for i in 0..n
            invariant
                n == r.enchantments@.len(),
                list == spelled(r.enchantments@),
                inner.map() == enchantment_fields(list.take(i as int)),
        {
            assert(list.take(i + 1).drop_last() =~= list.take(i as int));
            let level: i32 = r.enchantments[i].1;
            inner.insert(r.enchantments[i].0.clone(), Value::Int(level));
        }
        assert(list.take(n as int) =~= list);
        fields.insert("enchantments".to_owned(), Value::Compound(inner));
    }
    Value::Compound(fields)
}

/// The attributes that count for a sale's keys.
pub open spec fn sale_attributes(sale: HistoricalSale) -> Tree {
    match sale.extra_attributes {
        Some(v) => v.tree(),
        None => Tree::Compound(reconstructed_fields(sale.reconstructed)),
    }
}

/// A sale as if it were a live auction.
pub fn synthetic_item(sale: &HistoricalSale) -> (item: ParsedItem)
    ensures
        item.uuid@ == Seq::<char>::empty(),
        item.auctioneer@ == Seq::<char>::empty(),
        item.skyblock_item_id@ == sale.item_tag@,
        item.display_name@ == sale.item_tag@,
        item.count == 1,
        item.starting_bid == sale.sale_price,
        item.bin,
        item.end == sale.sold_at,
        tree_of(item.extra_attributes) == Some(sale_attributes(*sale)),
{
    let extra_attributes = match &sale.extra_attributes {
        Some(value) => value.duplicate(),
        None => build_reconstructed_value(&sale.reconstructed),
    };
    ParsedItem {
        uuid: String::new(),
        auctioneer: String::new(),
        skyblock_item_id: sale.item_tag.clone(),
        display_name: sale.item_tag.clone(),
        count: 1,
        starting_bid: sale.sale_price,
        bin: true,
        end: sale.sold_at,
        extra_attributes: Some(extra_attributes),
    }
}

/// The fingerprint that a live auction of the sold item would have.
pub fn fingerprint_of(sale: &HistoricalSale) -> (key: Fingerprint)
    ensures
        key == exact_key(sale.item_tag@, Some(sale_attributes(*sale))),
{
    fingerprint(&synthetic_item(sale))
}

/// The key of major modifiers that a live auction of the sold item would
/// have.
pub fn major_modifier_key_of(sale: &HistoricalSale) -> (key: Fingerprint)
    ensures
        key == major_key(sale.item_tag@, Some(sale_attributes(*sale))),
{
    major_modifier_key(&synthetic_item(sale))
}

/// A live auction and a past sale of the same item, with the same
/// price-moving modifiers, have the same keys.
pub proof fn law_live_and_historical_keys_agree(item: ParsedItem, sale: HistoricalSale)
    requires
        item.skyblock_item_id@ == sale.item_tag@,
        modifiers(tree_of(item.extra_attributes)) == modifiers(Some(sale_attributes(sale))),
    ensures
        exact_key(item.skyblock_item_id@, tree_of(item.extra_attributes)) == exact_key(
            sale.item_tag@,
            Some(sale_attributes(sale)),
        ),
        major_key(item.skyblock_item_id@, tree_of(item.extra_attributes)) == major_key(
            sale.item_tag@,
            Some(sale_attributes(sale)),
        ),
{
}

/// The address that requests go to: a base that does not end in `/api` gets
/// that segment.
pub open spec fn api_root(base: Seq<char>) -> Seq<char> {
    if ends_in(base, "/api"@) {
        base
    } else {
        base + "/api"@
    }
}

/// The address of one page of an item's past sales.
pub open spec fn sold_page_address(base: Seq<char>, tag: Seq<char>, page: nat) -> Seq<char> {
    api_root(base) + "/auctions/tag/"@ + tag + "/sold?page="@ + decimal(page)
}

/// The address of one page of an item's past sales, whether or not the base
/// already ends in `/api`.
pub fn sold_page_url(base_url: &str, item_tag: &str, page: u32) -> (url: String)
    ensures
        url@ == sold_page_address(base_url@, item_tag@, page as nat),
{
    let mut url = base_url.to_owned();
    if !ends_with(base_url, "/api") {
        url.append("/api");
    }
    url.append("/auctions/tag/");
    url.append(item_tag);
    url.append("/sold?page=");
    push_decimal(&mut url, page as u64);
    url
}

/// The pages of an item's past sales stand under `/api/auctions/tag/`, with
/// the tag and the number of the page, whether or not the base already ends
/// in `/api`; different pages have different addresses.
pub proof fn law_sold_page_addresses(base: Seq<char>, tag: Seq<char>, page: nat, other: nat)
    ensures
        sold_page_address(base + "/api"@, tag, page) == base + ("/api/auctions/tag/"@ + tag
            + "/sold?page="@ + decimal(page)),
        !ends_in(base, "/api"@) ==> sold_page_address(base, tag, page) == sold_page_address(
            base + "/api"@,
            tag,
            page,
        ),
        page != other ==> sold_page_address(base, tag, page) != sold_page_address(
            base,
            tag,
            other,
        ),
{
    reveal_strlit("/api");
    reveal_strlit("/auctions/tag/");
    reveal_strlit("/api/auctions/tag/");
    let root = base + "/api"@;
    assert(root.skip(root.len() - "/api"@.len()) =~= "/api"@);
    assert("/api"@ + "/auctions/tag/"@ =~= "/api/auctions/tag/"@);
    assert(sold_page_address(root, tag, page) =~= base + ("/api"@ + "/auctions/tag/"@ + tag
        + "/sold?page="@ + decimal(page)));
    law_decimal_reads_back(page);
    law_decimal_reads_back(other);
    let path = api_root(base) + "/auctions/tag/"@ + tag + "/sold?page="@;
    if sold_page_address(base, tag, page) == sold_page_address(base, tag, other) {
        assert(sold_page_address(base, tag, page).skip(path.len() as int) =~= decimal(page));
        assert(sold_page_address(base, tag, other).skip(path.len() as int) =~= decimal(other));
    }
}

/// With the pause between requests, no more than a hundred fall into a
/// minute.
pub proof fn law_requests_keep_to_the_limit(requests: int)
    requires
        requests >= 0,
        requests * COFL_REQUEST_DELAY_MILLIS <= 60_000,
    ensures
        requests <= 100,
{
}

} // verus!
