//! Item fingerprints.
//!
//! A fingerprint is a 64-bit key that two auctions of "the same" item
//! share: the same item id and the same price-moving modifiers, whatever
//! the auction's own data, the item's uuid or its timestamps are.
//!
//! What is hashed is a byte encoding of the item's [`Modifiers`]. The
//! encoding loses nothing (see [`law_encoding_tells_items_apart`]), so two
//! different items share a fingerprint only where the hash itself collides.

use crate::encoding::{
    count_bytes, flag_bytes, joined, lemma_count_prefix, lemma_flag_prefix,
    lemma_joined_prefix, lemma_marker_prefix, lemma_number_prefix, lemma_option_prefix,
    lemma_text_prefix, number_bytes, option_bytes, push_count, push_flag, push_marker,
    push_number, push_text, text_bytes,
};
use crate::nbt::{as_compound, as_int, Compound, Tree, Value};
use crate::order::{
    ascending, by_text, in_order, law_text_order_is_total, lemma_ascending_is_set_in_order,
    lemma_set_in_order_members, lemma_sorted_is_in_order, set_in_order, sort_texts, text_le,
};
use crate::parser::{part, text_part, ParsedItem};
use crate::text::texts;
use std::collections::hash_map::DefaultHasher;
use std::hash::Hasher;
use vstd::prelude::*;
use vstd::std_specs::hash::*;

verus! {

/// A key that identifies "the same item" across auctions.
#[derive(Debug, Clone, Copy, PartialEq, Eq, Hash, PartialOrd, Ord, Structural)]
pub struct Fingerprint(pub u64);

// ---------------------------------------------------------------------
// Hexadecimal form
// ---------------------------------------------------------------------

/// The small hexadecimal digit of a number below sixteen.
pub open spec fn hex_digit(n: int) -> char {
    if n < 10 {
        ('0' as int + n) as char
    } else {
        ('a' as int + n - 10) as char
    }
}

/// The last `width` hexadecimal digits of `n`.
pub open spec fn hex(n: nat, width: nat) -> Seq<char>
    decreases width,
{
    if width == 0 {
        Seq::empty()
    } else {
        hex(n / 16, (width - 1) as nat).push(hex_digit((n % 16) as int))
    }
}

/// Appends the last `width` hexadecimal digits of `n`.
fn push_hex(out: &mut String, n: u64, width: u8)
    ensures
        final(out)@ == old(out)@ + hex(n as nat, width as nat),
    decreases width,
{
    if width > 0 {
        push_hex(out, n / 16, width - 1);
        let digit: u8 = (n % 16) as u8;
        let c = if digit < 10 {
            (48u8 + digit) as char
        } else {
            (87u8 + digit) as char
        };
        out.push(c);
    }
    assert(out@ =~= old(out)@ + hex(n as nat, width as nat));
}

impl Fingerprint {
    /// The key as sixteen hexadecimal digits.
    pub fn to_hex(&self) -> (text: String)
        ensures
            text@ == hex(self.0 as nat, 16),
    {
        let mut text = String::new();
        push_hex(&mut text, self.0, 16);
        assert(Seq::<char>::empty() + hex(self.0 as nat, 16) =~= hex(self.0 as nat, 16));
        text
    }
}

// ---------------------------------------------------------------------
// What moves a price
// ---------------------------------------------------------------------

/// A gemstone slot.
pub enum Gem {
    /// A plain string: the gem's quality.
    Plain(Seq<char>),
    /// A compound with a string `quality`.
    Rated(Seq<char>),
    /// A compound without one.
    Unrated,
    /// Anything else.
    Unknown,
}

/// The modifiers of an item that move its price.
#[verifier::ext_equal]
pub struct Modifiers {
    pub reforge: Option<Seq<char>>,
    pub recombobulated: bool,
    pub hot_potato_books: i64,
    pub stars: i64,
    pub art_of_war: bool,
    pub enrichment: Option<Seq<char>>,
    pub skin: Option<Seq<char>>,
    /// In ascending order.
    pub scrolls: Seq<Seq<char>>,
    pub runes: Map<Seq<char>, i64>,
    pub enchantments: Map<Seq<char>, i64>,
    pub gems: Map<Seq<char>, Gem>,
}

/// The fields of the attributes; none where they are not a compound.
pub open spec fn fields_of(attributes: Option<Tree>) -> Map<Seq<char>, Tree> {
    match attributes {
        Some(Tree::Compound(fields)) => fields,
        _ => Map::empty(),
    }
}

/// The integer under `name`; zero where there is none.
pub open spec fn number_part(fields: Map<Seq<char>, Tree>, name: Seq<char>) -> i64 {
    if fields.contains_key(name) {
        match fields[name].integer() {
            Some(n) => n,
            None => 0,
        }
    } else {
        0
    }
}

/// The compound under `name`; empty where there is none.
pub open spec fn compound_part(fields: Map<Seq<char>, Tree>, name: Seq<char>) -> Map<
    Seq<char>,
    Tree,
> {
    match part(fields, name) {
        Some(inner) => inner,
        None => Map::empty(),
    }
}

/// The strings of a list, in its order.
pub open spec fn strings_of(list: Seq<Tree>) -> Seq<Seq<char>>
    decreases list.len(),
{
    if list.len() == 0 {
        Seq::empty()
    } else {
        match list.last() {
            Tree::String(s) => strings_of(list.drop_last()).push(s),
            _ => strings_of(list.drop_last()),
        }
    }
}

/// The strings in the list under `name`; none where there is no list.
pub open spec fn strings_part(fields: Map<Seq<char>, Tree>, name: Seq<char>) -> Seq<Seq<char>> {
    if fields.contains_key(name) {
        match fields[name] {
            Tree::List(list) => strings_of(list),
            _ => Seq::empty(),
        }
    } else {
        Seq::empty()
    }
}

/// The fields that hold an integer.
pub open spec fn levels(fields: Map<Seq<char>, Tree>) -> Map<Seq<char>, i64> {
    Map::new(
        |k: Seq<char>| fields.contains_key(k) && fields[k].integer() is Some,
        |k: Seq<char>| fields[k].integer()->0,
    )
}

/// The gemstone slot that a value describes.
pub open spec fn gem_of(tree: Tree) -> Gem {
    match tree {
        Tree::String(s) => Gem::Plain(s),
        Tree::Compound(inner) => match text_part(inner, "quality"@) {
            Some(s) => Gem::Rated(s),
            None => Gem::Unrated,
        },
        _ => Gem::Unknown,
    }
}

/// The gemstone slots that a compound describes.
pub open spec fn gems(fields: Map<Seq<char>, Tree>) -> Map<Seq<char>, Gem> {
    Map::new(|k: Seq<char>| fields.contains_key(k), |k: Seq<char>| gem_of(fields[k]))
}

/// The price-moving modifiers in an item's attributes.
pub open spec fn modifiers(attributes: Option<Tree>) -> Modifiers {
    let fields = fields_of(attributes);
    Modifiers {
        reforge: text_part(fields, "modifier"@),
        recombobulated: number_part(fields, "rarity_upgrades"@) >= 1,
        hot_potato_books: number_part(fields, "hot_potato_count"@),
        stars: number_part(fields, "dungeon_item_level"@),
        art_of_war: number_part(fields, "art_of_war_count"@) >= 1,
        enrichment: text_part(fields, "talisman_enrichment"@),
        skin: text_part(fields, "skin"@),
        scrolls: in_order(strings_part(fields, "ability_scroll"@)),
        runes: levels(compound_part(fields, "runes"@)),
        enchantments: levels(compound_part(fields, "enchantments"@)),
        gems: gems(compound_part(fields, "gems"@)),
    }
}

/// What an optional value means.
pub open spec fn tree_of(value: Option<Value>) -> Option<Tree> {
    match value {
        Some(v) => Some(v.tree()),
        None => None,
    }
}

// ---------------------------------------------------------------------
// Encodings
// ---------------------------------------------------------------------

/// A list of texts, behind their count.
pub open spec fn texts_bytes(list: Seq<Seq<char>>) -> Seq<u8> {
    count_bytes(list.len()) + joined(Seq::new(list.len(), |i: int| text_bytes(list[i])))
}

/// One named number.
pub open spec fn level_bytes(m: Map<Seq<char>, i64>, name: Seq<char>) -> Seq<u8> {
    text_bytes(name) + number_bytes(m[name])
}

/// The numbers under `names`.
pub open spec fn level_list(m: Map<Seq<char>, i64>, names: Seq<Seq<char>>) -> Seq<Seq<u8>> {
    Seq::new(names.len(), |i: int| level_bytes(m, names[i]))
}

/// Named numbers in the order of their names, behind their count.
pub open spec fn levels_bytes(m: Map<Seq<char>, i64>) -> Seq<u8> {
    let names = set_in_order(m.dom());
    count_bytes(names.len()) + joined(level_list(m, names))
}

/// A gemstone slot's quality.
pub open spec fn gem_bytes(gem: Gem) -> Seq<u8> {
    match gem {
        Gem::Plain(s) => seq![1u8] + text_bytes(s),
        Gem::Rated(s) => seq![2u8] + text_bytes(s),
        Gem::Unrated => seq![3u8],
        Gem::Unknown => seq![0u8],
    }
}

/// One named gemstone slot.
pub open spec fn slot_bytes(m: Map<Seq<char>, Gem>, name: Seq<char>) -> Seq<u8> {
    text_bytes(name) + gem_bytes(m[name])
}

/// The gemstone slots under `names`.
pub open spec fn slot_list(m: Map<Seq<char>, Gem>, names: Seq<Seq<char>>) -> Seq<Seq<u8>> {
    Seq::new(names.len(), |i: int| slot_bytes(m, names[i]))
}

/// Gemstone slots in the order of their names, behind their count.
pub open spec fn gems_bytes(m: Map<Seq<char>, Gem>) -> Seq<u8> {
    let names = set_in_order(m.dom());
    count_bytes(names.len()) + joined(slot_list(m, names))
}

/// An item id and all its modifiers.
pub open spec fn item_bytes(id: Seq<char>, m: Modifiers) -> Seq<u8> {
    text_bytes(id) + (option_bytes(m.reforge) + (flag_bytes(m.recombobulated) + (number_bytes(
        m.hot_potato_books,
    ) + (number_bytes(m.stars) + (flag_bytes(m.art_of_war) + (option_bytes(m.enrichment) + (
    option_bytes(m.skin) + (texts_bytes(m.scrolls) + (levels_bytes(m.runes) + (levels_bytes(
        m.enchantments,
    ) + gems_bytes(m.gems)))))))))))
}

/// `name` has the highest level; of several with the same, the first name.
pub open spec fn is_top(m: Map<Seq<char>, i64>, name: Seq<char>) -> bool {
    &&& m.contains_key(name)
    &&& forall|other: Seq<char>| #[trigger]
        m.contains_key(other) ==> m[other] < m[name] || (m[other] == m[name] && text_le(
            name,
            other,
        ))
}

/// The name with the highest level, and that level.
pub open spec fn top(m: Map<Seq<char>, i64>) -> Option<(Seq<char>, i64)> {
    if exists|name: Seq<char>| is_top(m, name) {
        let name = choose|name: Seq<char>| is_top(m, name);
        Some((name, m[name]))
    } else {
        None
    }
}

/// A named number or none: one byte that says which, then the number.
pub open spec fn top_bytes(top: Option<(Seq<char>, i64)>) -> Seq<u8> {
    match top {
        Some((name, level)) => seq![1u8] + (text_bytes(name) + number_bytes(level)),
        None => seq![0u8],
    }
}

/// An item id and the modifiers that weigh most: reforge, recombobulation,
/// stars, hot potato books and the highest-level enchantment.
pub open spec fn major_bytes(id: Seq<char>, m: Modifiers) -> Seq<u8> {
    text_bytes(id) + (option_bytes(m.reforge) + (flag_bytes(m.recombobulated) + (number_bytes(
        m.stars,
    ) + (number_bytes(m.hot_potato_books) + top_bytes(top(m.enchantments))))))
}

/// The standard library's default hash of some bytes.
pub open spec fn hash_of(bytes: Seq<u8>) -> u64 {
    DefaultHasher::spec_finish(seq![bytes])
}

/// The fingerprint of an item with this id and these attributes.
pub open spec fn exact_key(id: Seq<char>, attributes: Option<Tree>) -> Fingerprint {
    Fingerprint(hash_of(item_bytes(id, modifiers(attributes))))
}

/// The coarser key of an item with this id and these attributes.
pub open spec fn major_key(id: Seq<char>, attributes: Option<Tree>) -> Fingerprint {
    Fingerprint(hash_of(major_bytes(id, modifiers(attributes))))
}

// ---------------------------------------------------------------------
// Reading fields
// ---------------------------------------------------------------------

/// The fields of optional attributes.
pub open spec fn given_fields(attrs: Option<&Compound>) -> Map<Seq<char>, Tree> {
    match attrs {
        Some(c) => c.map(),
        None => Map::empty(),
    }
}

fn field<'a>(attrs: Option<&'a Compound>, key: &str) -> (value: Option<&'a Value>)
    ensures
        match value {
            Some(v) => given_fields(attrs).contains_key(key@) && v.tree() == given_fields(
                attrs,
            )[key@],
            None => !given_fields(attrs).contains_key(key@),
        },
{
    match attrs {
        Some(c) => c.get(key),
        None => None,
    }
}

fn field_str<'a>(attrs: Option<&'a Compound>, key: &str) -> (text: Option<&'a str>)
    ensures
        match text {
            Some(s) => text_part(given_fields(attrs), key@) == Some(s@),
            None => text_part(given_fields(attrs), key@) is None,
        },
{
    match field(attrs, key) {
        Some(Value::String(s)) => Some(s.as_str()),
        _ => None,
    }
}

fn field_int(attrs: Option<&Compound>, key: &str) -> (n: i64)
    ensures
        n == number_part(given_fields(attrs), key@),
{
    match field(attrs, key) {
        Some(value) => match as_int(value) {
            Some(n) => n,
            None => 0,
        },
        None => 0,
    }
}

fn field_compound<'a>(attrs: Option<&'a Compound>, key: &str) -> (inner: Option<&'a Compound>)
    ensures
        given_fields(inner) == compound_part(given_fields(attrs), key@),
{
    match field(attrs, key) {
        Some(value) => as_compound(value),
        None => None,
    }
}

fn field_string_list(attrs: Option<&Compound>, key: &str) -> (list: Vec<String>)
    ensures
        texts(list@) == strings_part(given_fields(attrs), key@),
{
    let mut list: Vec<String> = Vec::new();
    if let Some(Value::List(items)) = field(attrs, key) {
        let ghost trees = given_fields(attrs)[key@]->List_0;
        let n: usize = items.len();
        assert(texts(list@) =~= strings_of(trees.take(0)));
        for i in 0..n
            invariant
                n == items@.len() == trees.len(),
                forall|j: int| 0 <= j < items@.len() ==> items@[j].tree() == #[trigger] trees[j],
                texts(list@) == strings_of(trees.take(i as int)),
        {
            assert(trees.take(i + 1).drop_last() =~= trees.take(i as int));
            assert(items@[i as int].tree() == trees[i as int]);
            let ghost before = texts(list@);
            if let Value::String(s) = &items[i] {
                list.push(s.clone());
                assert(texts(list@) =~= before.push(s@));
            }
        }
        assert(trees.take(trees.len() as int) =~= trees);
    } else {
        assert(texts(list@) =~= Seq::<Seq<char>>::empty());
    }
    list
}

// ---------------------------------------------------------------------
// Feeding the hash
// ---------------------------------------------------------------------

/// Appends an optional text, so that none and the empty text differ.
fn hash_opt_str(bytes: &mut Vec<u8>, value: Option<&str>)
    ensures
        final(bytes)@ == old(bytes)@ + option_bytes(
            match value {
                Some(s) => Some(s@),
                None => None,
            },
        ),
{
    match value {
        Some(s) => {
            push_marker(bytes, 1);
            push_text(bytes, s);
            assert(bytes@ =~= old(bytes)@ + (seq![1u8] + text_bytes(s@)));
        },
        None => {
            push_marker(bytes, 0);
        },
    }
}

/// Appends a list of texts in ascending order, behind their count.
fn hash_sorted_str_list(bytes: &mut Vec<u8>, items: Vec<String>)
    ensures
        final(bytes)@ == old(bytes)@ + texts_bytes(in_order(texts(items@))),
{
    let sorted = sort_texts(items);
    let ghost list = texts(sorted@);
    let ghost pieces = Seq::new(list.len(), |i: int| text_bytes(list[i]));
    push_count(bytes, sorted.len());
    let ghost start = bytes@;
    let n: usize = sorted.len();
    assert(start =~= start + joined(pieces.take(0)));
    for i in 0..n
        invariant
            n == sorted@.len(),
            list == texts(sorted@),
            pieces == Seq::new(list.len(), |i: int| text_bytes(list[i])),
            bytes@ == start + joined(pieces.take(i as int)),
    {
        push_text(bytes, sorted[i].as_str());
        assert(pieces.take(i + 1).drop_last() =~= pieces.take(i as int));
        assert(bytes@ =~= start + joined(pieces.take(i + 1)));
    }
    assert(pieces.take(pieces.len() as int) =~= pieces);
    assert(bytes@ =~= old(bytes)@ + texts_bytes(list));
}

/// `names` are those of the first `n` fields that hold an integer.
spec fn picked(fields: Compound, n: int, names: Seq<Seq<char>>) -> bool {
    &&& ascending(names)
    &&& forall|j: int|
        0 <= j < names.len() ==> fields.names().take(n).contains(#[trigger] names[j])
            && levels(fields.map()).contains_key(names[j])
    &&& forall|j: int|
        0 <= j < n && levels(fields.map()).contains_key(#[trigger] fields.names()[j])
            ==> names.contains(fields.names()[j])
}

/// The next field joins the picked ones if it holds an integer.
proof fn lemma_picked_step(fields: Compound, n: int, names: Seq<Seq<char>>)
    requires
        0 <= n < fields.names().len(),
        ascending(fields.names()),
        picked(fields, n, names),
    ensures
        levels(fields.map()).contains_key(fields.names()[n]) ==> picked(
            fields,
            n + 1,
            names.push(fields.names()[n]),
        ),
        !levels(fields.map()).contains_key(fields.names()[n]) ==> picked(fields, n + 1, names),
{
    let all = fields.names();
    let next = all[n];
    assert forall|k: Seq<char>| all.take(n).contains(k) implies all.take(n + 1).contains(k)
        && text_le(k, next) && k != next by {
        let i = choose|i: int| 0 <= i < all.take(n).len() && all.take(n)[i] == k;
        assert(all.take(n + 1)[i] == k);
        assert(all[i] == k);
    }
    if levels(fields.map()).contains_key(next) {
        let longer = names.push(next);
        assert(all.take(n + 1)[n] == next);
        assert(longer[names.len() as int] == next);
        assert forall|j: int| 0 <= j < longer.len() implies all.take(n + 1).contains(
            #[trigger] longer[j],
        ) && levels(fields.map()).contains_key(longer[j]) by {
            if j < names.len() {
                assert(longer[j] == names[j]);
            }
        }
        assert forall|i: int, j: int| 0 <= i < j < longer.len() implies text_le(
            #[trigger] longer[i],
            #[trigger] longer[j],
        ) && longer[i] != longer[j] by {
            assert(longer[i] == names[i]);
            if j < names.len() {
                assert(longer[j] == names[j]);
            }
        }
        assert forall|j: int|
            0 <= j < n + 1 && levels(fields.map()).contains_key(
                #[trigger] all[j],
            ) implies longer.contains(all[j]) by {
            if j < n {
                let i = choose|i: int| 0 <= i < names.len() && names[i] == all[j];
                assert(longer[i] == all[j]);
            }
        }
    }
}

/// All fields picked are those that hold an integer, in order.
proof fn lemma_picked_all(fields: Compound, names: Seq<Seq<char>>)
    requires
        fields.map().dom() == fields.names().to_set(),
        picked(fields, fields.names().len() as int, names),
    ensures
        names == set_in_order(levels(fields.map()).dom()),
{
    let dom = levels(fields.map()).dom();
    assert(names.to_set() =~= dom) by {
        assert forall|k: Seq<char>| names.contains(k) <==> dom.contains(k) by {
            if dom.contains(k) {
                assert(fields.names().to_set().contains(k));
                let j = choose|j: int| 0 <= j < fields.names().len() && fields.names()[j] == k;
                assert(names.contains(fields.names()[j]));
            }
        }
    }
    lemma_ascending_is_set_in_order(names);
}

/// Appends the integer fields of a compound in the order of their names,
/// behind their count. Other fields are passed over.
fn hash_sorted_int_compound(bytes: &mut Vec<u8>, map: Option<&Compound>)
    ensures
        final(bytes)@ == old(bytes)@ + levels_bytes(levels(given_fields(map))),
{
    let fields = match map {
        Some(fields) => fields,
        None => {
            push_count(bytes, 0);
            proof {
                let none = levels(Map::empty());
                let names = Seq::<Seq<char>>::empty();
                assert(none.dom() =~= names.to_set());
                lemma_ascending_is_set_in_order(names);
                assert(joined(level_list(none, names)) =~= Seq::<u8>::empty());
                assert(levels_bytes(none) =~= count_bytes(0));
            }
            return;
        },
    };
    let ghost m = levels(fields.map());
    let ghost mut names = Seq::<Seq<char>>::empty();
    let n: usize = fields.len();
    let mut count: usize = 0;
    let mut body: Vec<u8> = Vec::new();
    assert(body@ =~= joined(level_list(m, names)));
    for i in 0..n
        invariant
            n == fields.names().len(),
            m == levels(fields.map()),
            ascending(fields.names()),
            picked(*fields, i as int, names),
            count == names.len() <= i,
            body@ == joined(level_list(m, names)),
    {
        proof {
            lemma_picked_step(*fields, i as int, names);
        }
        if let Some(level) = as_int(fields.value_at(i)) {
            let name = fields.name_at(i).as_str();
            push_text(&mut body, name);
            push_number(&mut body, level);
            count += 1;
            proof {
                let before = names;
                names = names.push(name@);
                assert(level_list(m, names).drop_last() =~= level_list(m, before));
                assert(body@ =~= joined(level_list(m, names)));
            }
        }
    }
    push_count(bytes, count);
    bytes.append(&mut body);
    proof {
        lemma_picked_all(*fields, names);
    }
    assert(bytes@ =~= old(bytes)@ + levels_bytes(m));
}

/// Appends a gemstone slot's quality.
fn hash_gem(bytes: &mut Vec<u8>, value: &Value)
    ensures
        final(bytes)@ == old(bytes)@ + gem_bytes(gem_of(value.tree())),
{
    match value {
        Value::String(s) => {
            push_marker(bytes, 1);
            push_text(bytes, s.as_str());
        },
        Value::Compound(inner) => match field_str(Some(inner), "quality") {
            Some(s) => {
                push_marker(bytes, 2);
                push_text(bytes, s);
            },
            None => push_marker(bytes, 3),
        },
        _ => push_marker(bytes, 0),
    }
    assert(bytes@ =~= old(bytes)@ + gem_bytes(gem_of(value.tree())));
}

/// Appends gemstone slots in the order of their names, behind their count:
/// of each its name and a marker with its quality. What else a slot holds
/// belongs to the single gem and is left out.
pub fn hash_gems(bytes: &mut Vec<u8>, map: Option<&Compound>)
    ensures
        final(bytes)@ == old(bytes)@ + gems_bytes(gems(given_fields(map))),
{
    let fields = match map {
        Some(fields) => fields,
        None => {
            push_count(bytes, 0);
            proof {
                let none = gems(Map::empty());
                let names = Seq::<Seq<char>>::empty();
                assert(none.dom() =~= names.to_set());
                lemma_ascending_is_set_in_order(names);
                assert(joined(slot_list(none, names)) =~= Seq::<u8>::empty());
                assert(gems_bytes(none) =~= count_bytes(0));
            }
            return;
        },
    };
    let ghost m = gems(fields.map());
    let ghost names = fields.names();
    let n: usize = fields.len();
    assert(m.dom() =~= fields.map().dom());
    push_count(bytes, n);
    let ghost start = bytes@;
    assert(start =~= start + joined(slot_list(m, names).take(0)));
    for i in 0..n
        invariant
            n == names.len(),
            names == fields.names(),
            m == gems(fields.map()),
            bytes@ == start + joined(slot_list(m, names).take(i as int)),
    {
        let ghost pieces = slot_list(m, names);
        push_text(bytes, fields.name_at(i).as_str());
        hash_gem(bytes, fields.value_at(i));
        assert(pieces.take(i + 1).drop_last() =~= pieces.take(i as int));
        assert(bytes@ =~= start + joined(pieces.take(i + 1)));
    }
    assert(slot_list(m, names).take(n as int) =~= slot_list(m, names));
    assert(bytes@ =~= old(bytes)@ + gems_bytes(m));
}

/// The default hash of some bytes.
fn finish(bytes: &Vec<u8>) -> (hash: u64)
    ensures
        hash == hash_of(bytes@),
{
    let mut hasher = DefaultHasher::new();
    hasher.write(bytes.as_slice());
    assert(hasher@ =~= seq![bytes@]);
    hasher.finish()
}

/// The fields of an item's attributes.
fn attributes_of(item: &ParsedItem) -> (attrs: Option<&Compound>)
    ensures
        given_fields(attrs) == fields_of(tree_of(item.extra_attributes)),
{
    match &item.extra_attributes {
        Some(value) => as_compound(value),
        None => None,
    }
}

/// Moves the boundary between what is written and what is left.
proof fn lemma_written(done: Seq<u8>, piece: Seq<u8>, left: Seq<u8>)
    ensures
        done + (piece + left) == (done + piece) + left,
{
    assert(done + (piece + left) =~= (done + piece) + left);
}

/// Computes the price-relevant fingerprint of an item.
pub fn fingerprint(item: &ParsedItem) -> (key: Fingerprint)
    ensures
        key == exact_key(item.skyblock_item_id@, tree_of(item.extra_attributes)),
{
    let attrs = attributes_of(item);
    let ghost m = modifiers(tree_of(item.extra_attributes));
    let ghost t11 = gems_bytes(m.gems);
    let ghost t10 = levels_bytes(m.enchantments) + t11;
    let ghost t9 = levels_bytes(m.runes) + t10;
    let ghost t8 = texts_bytes(m.scrolls) + t9;
    let ghost t7 = option_bytes(m.skin) + t8;
    let ghost t6 = option_bytes(m.enrichment) + t7;
    let ghost t5 = flag_bytes(m.art_of_war) + t6;
    let ghost t4 = number_bytes(m.stars) + t5;
    let ghost t3 = number_bytes(m.hot_potato_books) + t4;
    let ghost t2 = flag_bytes(m.recombobulated) + t3;
    let ghost t1 = option_bytes(m.reforge) + t2;
    let mut bytes: Vec<u8> = Vec::new();
    push_text(&mut bytes, item.skyblock_item_id.as_str());
    let ghost b1 = bytes@;
    hash_opt_str(&mut bytes, field_str(attrs, "modifier"));
    let ghost b2 = bytes@;
    push_flag(&mut bytes, field_int(attrs, "rarity_upgrades") >= 1);
    let ghost b3 = bytes@;
    push_number(&mut bytes, field_int(attrs, "hot_potato_count"));
    let ghost b4 = bytes@;
    push_number(&mut bytes, field_int(attrs, "dungeon_item_level"));
    let ghost b5 = bytes@;
    push_flag(&mut bytes, field_int(attrs, "art_of_war_count") >= 1);
    let ghost b6 = bytes@;
    hash_opt_str(&mut bytes, field_str(attrs, "talisman_enrichment"));
    let ghost b7 = bytes@;
    hash_opt_str(&mut bytes, field_str(attrs, "skin"));
    let ghost b8 = bytes@;
    hash_sorted_str_list(&mut bytes, field_string_list(attrs, "ability_scroll"));
    let ghost b9 = bytes@;
    hash_sorted_int_compound(&mut bytes, field_compound(attrs, "runes"));
    let ghost b10 = bytes@;
    hash_sorted_int_compound(&mut bytes, field_compound(attrs, "enchantments"));
    let ghost b11 = bytes@;
    hash_gems(&mut bytes, field_compound(attrs, "gems"));
    proof {
        assert(b1 =~= text_bytes(item.skyblock_item_id@));
        lemma_written(b1, option_bytes(m.reforge), t2);
        lemma_written(b2, flag_bytes(m.recombobulated), t3);
        lemma_written(b3, number_bytes(m.hot_potato_books), t4);
        lemma_written(b4, number_bytes(m.stars), t5);
        lemma_written(b5, flag_bytes(m.art_of_war), t6);
        lemma_written(b6, option_bytes(m.enrichment), t7);
        lemma_written(b7, option_bytes(m.skin), t8);
        lemma_written(b8, texts_bytes(m.scrolls), t9);
        lemma_written(b9, levels_bytes(m.runes), t10);
        lemma_written(b10, levels_bytes(m.enchantments), t11);
    }
    Fingerprint(finish(&bytes))
}

/// The highest-level enchantment; of several with the same level, the one
/// whose name comes first.
fn top_enchantment(map: Option<&Compound>) -> (best: Option<(&String, i64)>)
    ensures
        match best {
            Some((name, level)) => top(levels(given_fields(map))) == Some((name@, level)),
            None => top(levels(given_fields(map))) is None,
        },
{
    let fields = match map {
        Some(fields) => fields,
        None => return None,
    };
    let ghost m = levels(fields.map());
    let n: usize = fields.len();
    let mut best: Option<(&String, i64)> = None;
    for i in 0..n
        invariant
            n == fields.names().len(),
            m == levels(fields.map()),
            ascending(fields.names()),
            match best {
                Some((name, level)) => m.contains_key(name@) && m[name@] == level && exists|j: int|
                    0 <= j < i && fields.names()[j] == name@,
                None => true,
            },
            forall|j: int|
                0 <= j < i && m.contains_key(#[trigger] fields.names()[j]) ==> match best {
                    Some((name, level)) => m[fields.names()[j]] < level || (m[fields.names()[j]]
                        == level && text_le(name@, fields.names()[j])),
                    None => false,
                },
    {
        let ghost here = fields.names()[i as int];
        proof {
            law_text_order_is_total();
            let le = by_text();
            assert(le(here, here));
        }
        if let Some(level) = as_int(fields.value_at(i)) {
            let better = match best {
                Some((_, highest)) => level > highest,
                None => true,
            };
            if better {
                best = Some((fields.name_at(i), level));
            }
        }
    }
    proof {
        let names = fields.names();
        assert forall|k: Seq<char>| m.contains_key(k) implies names.contains(k) by {
            assert(names.to_set().contains(k));
        }
        match best {
            Some((name, level)) => {
                assert(is_top(m, name@)) by {
                    assert forall|k: Seq<char>| #[trigger] m.contains_key(k) implies m[k]
                        < m[name@] || (m[k] == m[name@] && text_le(name@, k)) by {
                        let j = choose|j: int| 0 <= j < names.len() && names[j] == k;
                        assert(m.contains_key(names[j]));
                    }
                }
                lemma_top_is_unique(m, name@);
            },
            None => {
                assert forall|k: Seq<char>| !is_top(m, k) by {
                    if m.contains_key(k) {
                        let j = choose|j: int| 0 <= j < names.len() && names[j] == k;
                        assert(m.contains_key(names[j]));
                    }
                }
            },
        }
    }
    best
}

/// Only one name is at the top.
pub(crate) proof fn lemma_top_is_unique(m: Map<Seq<char>, i64>, name: Seq<char>)
    requires
        is_top(m, name),
    ensures
        top(m) == Some((name, m[name])),
{
    law_text_order_is_total();
    let le = by_text();
    let other = choose|other: Seq<char>| is_top(m, other);
    assert(m.contains_key(other) && m.contains_key(name));
    assert(le(name, other) && le(other, name));
}

/// Computes the coarser key of an item, of its id and the modifiers that
/// weigh most.
pub fn major_modifier_key(item: &ParsedItem) -> (key: Fingerprint)
    ensures
        key == major_key(item.skyblock_item_id@, tree_of(item.extra_attributes)),
{
    let attrs = attributes_of(item);
    let ghost m = modifiers(tree_of(item.extra_attributes));
    let ghost t5 = top_bytes(top(m.enchantments));
    let ghost t4 = number_bytes(m.hot_potato_books) + t5;
    let ghost t3 = number_bytes(m.stars) + t4;
    let ghost t2 = flag_bytes(m.recombobulated) + t3;
    let mut bytes: Vec<u8> = Vec::new();
    push_text(&mut bytes, item.skyblock_item_id.as_str());
    let ghost b1 = bytes@;
    hash_opt_str(&mut bytes, field_str(attrs, "modifier"));
    let ghost b2 = bytes@;
    push_flag(&mut bytes, field_int(attrs, "rarity_upgrades") >= 1);
    let ghost b3 = bytes@;
    push_number(&mut bytes, field_int(attrs, "dungeon_item_level"));
    let ghost b4 = bytes@;
    push_number(&mut bytes, field_int(attrs, "hot_potato_count"));
    let ghost b5 = bytes@;
    match top_enchantment(field_compound(attrs, "enchantments")) {
        Some((name, level)) => {
            push_marker(&mut bytes, 1);
            push_text(&mut bytes, name.as_str());
            push_number(&mut bytes, level);
        },
        None => push_marker(&mut bytes, 0),
    }
    proof {
        assert(b1 =~= text_bytes(item.skyblock_item_id@));
        assert(bytes@ =~= b5 + t5);
        lemma_written(b1, option_bytes(m.reforge), t2);
        lemma_written(b2, flag_bytes(m.recombobulated), t3);
        lemma_written(b3, number_bytes(m.stars), t4);
        lemma_written(b4, number_bytes(m.hot_potato_books), t5);
    }
    Fingerprint(finish(&bytes))
}

// ---------------------------------------------------------------------
// Laws
// ---------------------------------------------------------------------

/// What belongs to the auction and not to the item (uuid, seller, bid, end,
/// name, count) has no part in either key.
pub proof fn law_auction_data_does_not_matter(a: ParsedItem, b: ParsedItem)
    requires
        a.skyblock_item_id@ == b.skyblock_item_id@,
        modifiers(tree_of(a.extra_attributes)) == modifiers(tree_of(b.extra_attributes)),
    ensures
        exact_key(a.skyblock_item_id@, tree_of(a.extra_attributes)) == exact_key(
            b.skyblock_item_id@,
            tree_of(b.extra_attributes),
        ),
        major_key(a.skyblock_item_id@, tree_of(a.extra_attributes)) == major_key(
            b.skyblock_item_id@,
            tree_of(b.extra_attributes),
        ),
{
}

/// The coarser key sees nothing but the id, the reforge, recombobulation,
/// the stars, the hot potato books and the highest-level enchantment.
pub proof fn law_minor_modifiers_do_not_matter(id: Seq<char>, a: Modifiers, b: Modifiers)
    requires
        a.reforge == b.reforge,
        a.recombobulated == b.recombobulated,
        a.stars == b.stars,
        a.hot_potato_books == b.hot_potato_books,
        top(a.enchantments) == top(b.enchantments),
    ensures
        major_bytes(id, a) == major_bytes(id, b),
{
}

/// The order in which ability scrolls stand in their list does not matter.
pub proof fn law_scroll_order_does_not_matter(a: Seq<Seq<char>>, b: Seq<Seq<char>>)
    requires
        a.to_multiset() == b.to_multiset(),
    ensures
        in_order(a) == in_order(b),
{
    law_text_order_is_total();
    a.lemma_sort_by_ensures(by_text());
    lemma_sorted_is_in_order(in_order(a), b);
}

/// Two values describe the same gemstone slot: both are the same string, or
/// both are compounds that agree on a string `quality` or lack it both, or
/// neither is a string or a compound.
pub open spec fn same_slot(a: Tree, b: Tree) -> bool {
    match (a, b) {
        (Tree::String(s), Tree::String(t)) => s == t,
        (Tree::Compound(inner), Tree::Compound(other)) => text_part(inner, "quality"@)
            == text_part(other, "quality"@),
        _ => !(a is String) && !(a is Compound) && !(b is String) && !(b is Compound),
    }
}

/// Of a gemstone slot only its name and quality count: whatever else the
/// slots of two compounds hold, such as a gem's own uuid, what is written of
/// them is the same. It is so in whatever order they stand, since they are
/// taken as maps; and no compound counts as an empty one. So neither key of
/// an item changes with such metadata.
pub proof fn law_gem_metadata_does_not_matter(
    id: Seq<char>,
    fields: Map<Seq<char>, Tree>,
    a: Map<Seq<char>, Tree>,
    b: Map<Seq<char>, Tree>,
)
    requires
        a.dom() == b.dom(),
        forall|slot: Seq<char>| #[trigger] a.contains_key(slot) ==> same_slot(a[slot], b[slot]),
    ensures
        gems(a) == gems(b),
        gems_bytes(gems(a)) == gems_bytes(gems(b)),
        gems(given_fields(None)) == gems(Map::empty()),
        ({
            let with_a = Some(Tree::Compound(fields.insert("gems"@, Tree::Compound(a))));
            let with_b = Some(Tree::Compound(fields.insert("gems"@, Tree::Compound(b))));
            &&& exact_key(id, with_a) == exact_key(id, with_b)
            &&& major_key(id, with_a) == major_key(id, with_b)
        }),
{
    assert(gems(a) =~= gems(b)) by {
        assert forall|slot: Seq<char>| #[trigger] gems(a).contains_key(slot) <==> gems(
            b,
        ).contains_key(slot) by {
            assert(a.dom().contains(slot) <==> b.dom().contains(slot));
        }
    }
    let with_a = Some(Tree::Compound(fields.insert("gems"@, Tree::Compound(a))));
    let with_b = Some(Tree::Compound(fields.insert("gems"@, Tree::Compound(b))));
    reveal_strlit("gems");
    reveal_strlit("runes");
    reveal_strlit("enchantments");
    assert("gems"@.len() == 4 && "runes"@.len() == 5 && "enchantments"@.len() == 12);
    assert(modifiers(with_a) =~= modifiers(with_b));
}

/// The collections in `m` are finite and can be counted in four bytes.
pub open spec fn countable(m: Modifiers) -> bool {
    &&& m.scrolls.len() <= u32::MAX
    &&& m.runes.dom().finite()
    &&& m.runes.len() <= u32::MAX
    &&& m.enchantments.dom().finite()
    &&& m.enchantments.len() <= u32::MAX
    &&& m.gems.dom().finite()
    &&& m.gems.len() <= u32::MAX
}

proof fn lemma_texts_prefix(a: Seq<Seq<char>>, r: Seq<u8>, b: Seq<Seq<char>>, s: Seq<u8>)
    requires
        texts_bytes(a) + r == texts_bytes(b) + s,
        a.len() <= u32::MAX,
        b.len() <= u32::MAX,
    ensures
        a == b,
        r == s,
{
    let x = Seq::new(a.len(), |i: int| text_bytes(a[i]));
    let y = Seq::new(b.len(), |i: int| text_bytes(b[i]));
    lemma_written(count_bytes(a.len()), joined(x), r);
    lemma_written(count_bytes(b.len()), joined(y), s);
    lemma_count_prefix(a.len(), joined(x) + r, b.len(), joined(y) + s);
    assert forall|i: int, j: int, t: Seq<u8>, u: Seq<u8>|
        0 <= i < x.len() && 0 <= j < y.len() && #[trigger] (x[i] + t) == #[trigger] (y[j]
            + u) implies x[i] == y[j] && t == u by {
        lemma_text_prefix(a[i], t, b[j], u);
    }
    lemma_joined_prefix(x, r, y, s);
    assert forall|i: int| 0 <= i < a.len() implies a[i] == b[i] by {
        assert(x[i] == y[i]);
        assert(x[i] + r == y[i] + r);
        lemma_text_prefix(a[i], r, b[i], r);
    }
    assert(a =~= b);
}

proof fn lemma_levels_prefix(
    a: Map<Seq<char>, i64>,
    r: Seq<u8>,
    b: Map<Seq<char>, i64>,
    s: Seq<u8>,
)
    requires
        levels_bytes(a) + r == levels_bytes(b) + s,
        a.dom().finite(),
        b.dom().finite(),
        a.len() <= u32::MAX,
        b.len() <= u32::MAX,
    ensures
        a == b,
        r == s,
{
    let p = set_in_order(a.dom());
    let q = set_in_order(b.dom());
    let x = level_list(a, p);
    let y = level_list(b, q);
    lemma_set_in_order_members(a.dom());
    lemma_set_in_order_members(b.dom());
    lemma_written(count_bytes(p.len()), joined(x), r);
    lemma_written(count_bytes(q.len()), joined(y), s);
    lemma_count_prefix(p.len(), joined(x) + r, q.len(), joined(y) + s);
    assert forall|i: int, j: int, t: Seq<u8>, u: Seq<u8>|
        0 <= i < x.len() && 0 <= j < y.len() && #[trigger] (x[i] + t) == #[trigger] (y[j]
            + u) implies x[i] == y[j] && t == u && p[i] == q[j] && a[p[i]] == b[q[j]] by {
        lemma_written(text_bytes(p[i]), number_bytes(a[p[i]]), t);
        lemma_written(text_bytes(q[j]), number_bytes(b[q[j]]), u);
        lemma_text_prefix(p[i], number_bytes(a[p[i]]) + t, q[j], number_bytes(b[q[j]]) + u);
        lemma_number_prefix(a[p[i]], t, b[q[j]], u);
    }
    lemma_joined_prefix(x, r, y, s);
    assert forall|i: int| 0 <= i < p.len() implies p[i] == q[i] && a[p[i]] == b[q[i]] by {
        assert(x[i] == y[i]);
        assert(x[i] + r == y[i] + r);
    }
    assert(p =~= q);
    assert(a =~= b) by {
        assert forall|k: Seq<char>| a.contains_key(k) implies a[k] == b[k] by {
            assert(p.to_set().contains(k));
            let i = choose|i: int| 0 <= i < p.len() && p[i] == k;
            assert(a[p[i]] == b[q[i]]);
        }
    }
}

proof fn lemma_gem_prefix(a: Gem, r: Seq<u8>, b: Gem, s: Seq<u8>)
    requires
        gem_bytes(a) + r == gem_bytes(b) + s,
    ensures
        a == b,
        r == s,
{
    let (mark_a, x) = match a {
        Gem::Plain(t) => (1u8, text_bytes(t)),
        Gem::Rated(t) => (2u8, text_bytes(t)),
        Gem::Unrated => (3u8, Seq::empty()),
        Gem::Unknown => (0u8, Seq::empty()),
    };
    let (mark_b, y) = match b {
        Gem::Plain(t) => (1u8, text_bytes(t)),
        Gem::Rated(t) => (2u8, text_bytes(t)),
        Gem::Unrated => (3u8, Seq::empty()),
        Gem::Unknown => (0u8, Seq::empty()),
    };
    assert(gem_bytes(a) + r =~= seq![mark_a] + (x + r));
    assert(gem_bytes(b) + s =~= seq![mark_b] + (y + s));
    lemma_marker_prefix(mark_a, x + r, mark_b, y + s);
    match (a, b) {
        (Gem::Plain(t), Gem::Plain(u)) => lemma_text_prefix(t, r, u, s),
        (Gem::Rated(t), Gem::Rated(u)) => lemma_text_prefix(t, r, u, s),
        _ => {
            assert(x + r =~= r);
            assert(y + s =~= s);
        },
    }
}

proof fn lemma_gems_prefix(
    a: Map<Seq<char>, Gem>,
    r: Seq<u8>,
    b: Map<Seq<char>, Gem>,
    s: Seq<u8>,
)
    requires
        gems_bytes(a) + r == gems_bytes(b) + s,
        a.dom().finite(),
        b.dom().finite(),
        a.len() <= u32::MAX,
        b.len() <= u32::MAX,
    ensures
        a == b,
        r == s,
{
    let p = set_in_order(a.dom());
    let q = set_in_order(b.dom());
    let x = slot_list(a, p);
    let y = slot_list(b, q);
    lemma_set_in_order_members(a.dom());
    lemma_set_in_order_members(b.dom());
    lemma_written(count_bytes(p.len()), joined(x), r);
    lemma_written(count_bytes(q.len()), joined(y), s);
    lemma_count_prefix(p.len(), joined(x) + r, q.len(), joined(y) + s);
    assert forall|i: int, j: int, t: Seq<u8>, u: Seq<u8>|
        0 <= i < x.len() && 0 <= j < y.len() && #[trigger] (x[i] + t) == #[trigger] (y[j]
            + u) implies x[i] == y[j] && t == u && p[i] == q[j] && a[p[i]] == b[q[j]] by {
        lemma_written(text_bytes(p[i]), gem_bytes(a[p[i]]), t);
        lemma_written(text_bytes(q[j]), gem_bytes(b[q[j]]), u);
        lemma_text_prefix(p[i], gem_bytes(a[p[i]]) + t, q[j], gem_bytes(b[q[j]]) + u);
        lemma_gem_prefix(a[p[i]], t, b[q[j]], u);
    }
    lemma_joined_prefix(x, r, y, s);
    assert forall|i: int| 0 <= i < p.len() implies p[i] == q[i] && a[p[i]] == b[q[i]] by {
        assert(x[i] == y[i]);
        assert(x[i] + r == y[i] + r);
    }
    assert(p =~= q);
    assert(a =~= b) by {
        assert forall|k: Seq<char>| a.contains_key(k) implies a[k] == b[k] by {
            assert(p.to_set().contains(k));
            let i = choose|i: int| 0 <= i < p.len() && p[i] == k;
            assert(a[p[i]] == b[q[i]]);
        }
    }
}

/// What is hashed for a fingerprint tells items apart: equal bytes come of
/// equal ids and equal modifiers alone. So an absent modifier and an empty
/// one differ, and so do two items that differ in any price-moving
/// modifier, but for a collision of the hash.
pub proof fn law_encoding_tells_items_apart(
    id: Seq<char>,
    m: Modifiers,
    other_id: Seq<char>,
    other: Modifiers,
)
    requires
        countable(m),
        countable(other),
        item_bytes(id, m) == item_bytes(other_id, other),
    ensures
        id == other_id,
        m == other,
{
    let none = Seq::<u8>::empty();
    let t10 = levels_bytes(m.enchantments) + gems_bytes(m.gems);
    let t9 = levels_bytes(m.runes) + t10;
    let t8 = texts_bytes(m.scrolls) + t9;
    let t7 = option_bytes(m.skin) + t8;
    let t6 = option_bytes(m.enrichment) + t7;
    let t5 = flag_bytes(m.art_of_war) + t6;
    let t4 = number_bytes(m.stars) + t5;
    let t3 = number_bytes(m.hot_potato_books) + t4;
    let t2 = flag_bytes(m.recombobulated) + t3;
    let t1 = option_bytes(m.reforge) + t2;
    let u10 = levels_bytes(other.enchantments) + gems_bytes(other.gems);
    let u9 = levels_bytes(other.runes) + u10;
    let u8_ = texts_bytes(other.scrolls) + u9;
    let u7 = option_bytes(other.skin) + u8_;
    let u6 = option_bytes(other.enrichment) + u7;
    let u5 = flag_bytes(other.art_of_war) + u6;
    let u4 = number_bytes(other.stars) + u5;
    let u3 = number_bytes(other.hot_potato_books) + u4;
    let u2 = flag_bytes(other.recombobulated) + u3;
    let u1 = option_bytes(other.reforge) + u2;
    lemma_text_prefix(id, t1, other_id, u1);
    lemma_option_prefix(m.reforge, t2, other.reforge, u2);
    lemma_flag_prefix(m.recombobulated, t3, other.recombobulated, u3);
    lemma_number_prefix(m.hot_potato_books, t4, other.hot_potato_books, u4);
    lemma_number_prefix(m.stars, t5, other.stars, u5);
    lemma_flag_prefix(m.art_of_war, t6, other.art_of_war, u6);
    lemma_option_prefix(m.enrichment, t7, other.enrichment, u7);
    lemma_option_prefix(m.skin, t8, other.skin, u8_);
    lemma_texts_prefix(m.scrolls, t9, other.scrolls, u9);
    lemma_levels_prefix(m.runes, t10, other.runes, u10);
    lemma_levels_prefix(
        m.enchantments,
        gems_bytes(m.gems),
        other.enchantments,
        gems_bytes(other.gems),
    );
    assert(gems_bytes(m.gems) + none =~= gems_bytes(m.gems));
    assert(gems_bytes(other.gems) + none =~= gems_bytes(other.gems));
    lemma_gems_prefix(m.gems, none, other.gems, none);
}

/// The value of a text of small hexadecimal digits.
pub open spec fn hex_value(s: Seq<char>) -> nat
    decreases s.len(),
{
    if s.len() == 0 {
        0
    } else {
        let c = s.last();
        let digit = if '0' <= c <= '9' {
            c as int - '0' as int
        } else {
            c as int - 'a' as int + 10
        };
        (hex_value(s.drop_last()) * 16 + digit) as nat
    }
}

/// Written in hexadecimal, a number has as many digits as were asked for,
/// all of them digits or small letters from `a` to `f`, and reads back as
/// itself where they suffice.
pub proof fn law_hex_reads_back(n: nat, width: nat)
    ensures
        hex(n, width).len() == width,
        forall|i: int|
            0 <= i < width ==> '0' <= (#[trigger] hex(n, width)[i]) <= '9' || 'a' <= hex(
                n,
                width,
            )[i] <= 'f',
        n < vstd::arithmetic::power::pow(16, width) ==> hex_value(hex(n, width)) == n,
    decreases width,
{
    reveal(vstd::arithmetic::power::pow);
    if width > 0 {
        let w = (width - 1) as nat;
        law_hex_reads_back(n / 16, w);
        assert(hex(n, width).drop_last() =~= hex(n / 16, w));
        vstd::arithmetic::power::lemma_pow_positive(16, w);
        let p = vstd::arithmetic::power::pow(16, w);
        assert(vstd::arithmetic::power::pow(16, width) == 16 * p);
    }
}

} // verus!
