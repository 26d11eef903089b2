use skyblock_flipper::fingerprint::{fingerprint, major_modifier_key, Fingerprint};
use skyblock_flipper::nbt::{Compound, Value};
use skyblock_flipper::parser::ParsedItem;
use std::collections::hash_map::DefaultHasher;
use std::hash::{Hash, Hasher};

fn compound(pairs: Vec<(&str, Value)>) -> Value {
    let mut map = Compound::new();
    for (k, v) in pairs {
        map.insert(k.to_string(), v);
    }
    Value::Compound(map)
}

fn text(s: &str) -> Value {
    Value::String(s.to_string())
}

fn item(id: &str, extra_attributes: Option<Value>) -> ParsedItem {
    ParsedItem {
        uuid: "u".to_string(),
        auctioneer: "s".to_string(),
        skyblock_item_id: id.to_string(),
        display_name: "d".to_string(),
        count: 1,
        starting_bid: 1,
        bin: true,
        end: 1,
        extra_attributes,
    }
}

fn with(pairs: Vec<(&str, Value)>) -> ParsedItem {
    item("HYPERION", Some(compound(pairs)))
}

fn hash_text(hasher: &mut DefaultHasher, text: Option<&str>) {
    match text {
        Some(s) => {
            1u8.hash(hasher);
            s.hash(hasher);
        }
        None => 0u8.hash(hasher),
    }
}

#[test]
fn an_item_without_attributes_hashes_its_id_and_the_defaults() {
    let mut hasher = DefaultHasher::new();
    "HYPERION".hash(&mut hasher);
    hash_text(&mut hasher, None);
    false.hash(&mut hasher);
    0i64.hash(&mut hasher);
    0i64.hash(&mut hasher);
    false.hash(&mut hasher);
    hash_text(&mut hasher, None);
    hash_text(&mut hasher, None);
    for _ in 0..4 {
        0u32.hash(&mut hasher);
    }
    assert_eq!(fingerprint(&item("HYPERION", None)), Fingerprint(hasher.finish()));
}

#[test]
fn a_full_item_hashes_every_modifier_in_its_place() {
    let full = with(vec![
        ("modifier", text("wise")),
        ("rarity_upgrades", Value::Byte(1)),
        ("hot_potato_count", Value::Short(15)),
        ("dungeon_item_level", Value::Long(-5)),
        ("art_of_war_count", Value::Int(2)),
        ("talisman_enrichment", text("speed")),
        ("skin", text("")),
        ("ability_scroll", Value::List(vec![text("z"), Value::Int(3), text("a")])),
        ("runes", compound(vec![("MUSIC", Value::Int(3)), ("odd", text("x"))])),
        (
            "enchantments",
            compound(vec![("sharpness", Value::Int(7)), ("growth", Value::Byte(5))]),
        ),
        (
            "gems",
            compound(vec![
                ("d", Value::Int(1)),
                ("a", text("FINE")),
                ("c", compound(vec![("uuid", text("?"))])),
                ("b", compound(vec![("quality", text("PERFECT"))])),
            ]),
        ),
        ("uuid", text("not price-moving")),
    ]);
    let mut hasher = DefaultHasher::new();
    "HYPERION".hash(&mut hasher);
    hash_text(&mut hasher, Some("wise"));
    true.hash(&mut hasher);
    15i64.hash(&mut hasher);
    (-5i64).hash(&mut hasher);
    true.hash(&mut hasher);
    hash_text(&mut hasher, Some("speed"));
    hash_text(&mut hasher, Some(""));
    2u32.hash(&mut hasher);
    "a".hash(&mut hasher);
    "z".hash(&mut hasher);
    1u32.hash(&mut hasher);
    "MUSIC".hash(&mut hasher);
    3i64.hash(&mut hasher);
    2u32.hash(&mut hasher);
    "growth".hash(&mut hasher);
    5i64.hash(&mut hasher);
    "sharpness".hash(&mut hasher);
    7i64.hash(&mut hasher);
    4u32.hash(&mut hasher);
    "a".hash(&mut hasher);
    1u8.hash(&mut hasher);
    "FINE".hash(&mut hasher);
    "b".hash(&mut hasher);
    2u8.hash(&mut hasher);
    "PERFECT".hash(&mut hasher);
    "c".hash(&mut hasher);
    3u8.hash(&mut hasher);
    "d".hash(&mut hasher);
    0u8.hash(&mut hasher);
    assert_eq!(fingerprint(&full), Fingerprint(hasher.finish()));
}

#[test]
fn names_and_scrolls_are_sorted_by_their_bytes() {
    let list = |items: Vec<&str>| {
        with(vec![(
            "ability_scroll",
            Value::List(items.into_iter().map(text).collect()),
        )])
    };
    let one = fingerprint(&list(vec!["b", "\u{e9}", "B", "a", "ab"]));
    let other = fingerprint(&list(vec!["\u{e9}", "ab", "a", "b", "B"]));
    assert_eq!(one, other);
    assert_ne!(one, fingerprint(&list(vec!["b", "\u{e9}", "B", "a"])));
}

#[test]
fn item_uuid_and_timestamp_do_not_affect_either_key() {
    let a = with(vec![("uuid", text("1")), ("timestamp", Value::Long(1))]);
    let b = with(vec![("uuid", text("2")), ("timestamp", Value::Long(2))]);
    assert_eq!(fingerprint(&a), fingerprint(&b));
    assert_eq!(major_modifier_key(&a), major_modifier_key(&b));
}

#[test]
fn major_key_ignores_gems_and_lesser_enchantments() {
    let plain = with(vec![(
        "enchantments",
        compound(vec![("sharpness", Value::Int(7))]),
    )]);
    let rich = with(vec![
        (
            "enchantments",
            compound(vec![("sharpness", Value::Int(7)), ("looting", Value::Int(4))]),
        ),
        ("gems", compound(vec![("COMBAT_0", text("FINE"))])),
        ("skin", text("ZOMBIE")),
        ("runes", compound(vec![("MUSIC", Value::Int(3))])),
    ]);
    assert_eq!(major_modifier_key(&plain), major_modifier_key(&rich));
    assert_ne!(fingerprint(&plain), fingerprint(&rich));
}

#[test]
fn major_key_sees_each_weighty_modifier() {
    let variants = [
        with(vec![]),
        with(vec![("modifier", text("wise"))]),
        with(vec![("rarity_upgrades", Value::Int(1))]),
        with(vec![("dungeon_item_level", Value::Int(5))]),
        with(vec![("hot_potato_count", Value::Int(5))]),
        with(vec![("enchantments", compound(vec![("sharpness", Value::Int(7))]))]),
        with(vec![("enchantments", compound(vec![("sharpness", Value::Int(6))]))]),
        with(vec![("enchantments", compound(vec![("looting", Value::Int(7))]))]),
        item("VALKYRIE", None),
    ];
    for i in 0..variants.len() {
        for j in (i + 1)..variants.len() {
            assert_ne!(
                major_modifier_key(&variants[i]),
                major_modifier_key(&variants[j]),
                "variants {} and {}",
                i,
                j
            );
        }
    }
}

#[test]
fn of_equal_levels_the_first_name_is_the_top_enchantment() {
    let a = with(vec![(
        "enchantments",
        compound(vec![("b", Value::Int(5)), ("a", Value::Int(5))]),
    )]);
    let b = with(vec![(
        "enchantments",
        compound(vec![("a", Value::Int(5)), ("c", Value::Int(4))]),
    )]);
    assert_eq!(major_modifier_key(&a), major_modifier_key(&b));
}

#[test]
fn attributes_that_are_not_a_compound_count_as_none() {
    assert_eq!(
        fingerprint(&item("X", Some(Value::Int(1)))),
        fingerprint(&item("X", None))
    );
}

#[test]
fn hex_has_sixteen_small_digits() {
    assert_eq!(Fingerprint(0xabc).to_hex(), "0000000000000abc");
    assert_eq!(Fingerprint(u64::MAX).to_hex(), "ffffffffffffffff");
    assert_eq!(Fingerprint(0x0123_4567_89ab_cdef).to_hex(), "0123456789abcdef");
}
