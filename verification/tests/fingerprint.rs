use skyblock_flipper::fingerprint::{fingerprint, hash_gems};
use skyblock_flipper::nbt::{Compound, Value};
use skyblock_flipper::parser::ParsedItem;

fn compound(pairs: Vec<(&str, Value)>) -> Value {
    let mut map = Compound::new();
    for (k, v) in pairs {
        map.insert(k.to_string(), v);
    }
    Value::Compound(map)
}

fn base_item(skyblock_item_id: &str, extra_attributes: Option<Value>) -> ParsedItem {
    ParsedItem {
        uuid: "auction-uuid".to_string(),
        auctioneer: "seller-uuid".to_string(),
        skyblock_item_id: skyblock_item_id.to_string(),
        display_name: "Hyperion".to_string(),
        count: 1,
        starting_bid: 900_000_000,
        bin: true,
        end: 1_690_003_600_000,
        extra_attributes,
    }
}

#[test]
fn identical_item_and_modifiers_fingerprint_the_same() {
    let a = base_item(
        "HYPERION",
        Some(compound(vec![(
            "enchantments",
            compound(vec![("ultimate_wise", Value::Int(5))]),
        )])),
    );
    let b = base_item(
        "HYPERION",
        Some(compound(vec![(
            "enchantments",
            compound(vec![("ultimate_wise", Value::Int(5))]),
        )])),
    );

    assert_eq!(fingerprint(&a), fingerprint(&b));
}

#[test]
fn auction_specific_fields_do_not_affect_fingerprint() {
    let mut a = base_item("HYPERION", None);
    let mut b = base_item("HYPERION", None);

    a.uuid = "auction-a".to_string();
    b.uuid = "auction-b".to_string();
    a.auctioneer = "seller-a".to_string();
    b.auctioneer = "seller-b".to_string();
    a.starting_bid = 100;
    b.starting_bid = 900_000_000;
    a.end = 1;
    b.end = 2;
    a.display_name = "one name".to_string();
    b.display_name = "a different name".to_string();

    assert_eq!(fingerprint(&a), fingerprint(&b));
}

#[test]
fn different_enchant_level_changes_fingerprint() {
    let a = base_item(
        "ASPECT_OF_THE_END",
        Some(compound(vec![(
            "enchantments",
            compound(vec![("sharpness", Value::Int(6))]),
        )])),
    );
    let b = base_item(
        "ASPECT_OF_THE_END",
        Some(compound(vec![(
            "enchantments",
            compound(vec![("sharpness", Value::Int(7))]),
        )])),
    );

    assert_ne!(fingerprint(&a), fingerprint(&b));
}

#[test]
fn different_item_id_changes_fingerprint() {
    let a = base_item("HYPERION", None);
    let b = base_item("NECRON_BLADE", None);

    assert_ne!(fingerprint(&a), fingerprint(&b));
}

#[test]
fn recombobulated_changes_fingerprint() {
    let plain = base_item("ASPECT_OF_THE_END", None);
    let recombobulated = base_item(
        "ASPECT_OF_THE_END",
        Some(compound(vec![("rarity_upgrades", Value::Int(1))])),
    );

    assert_ne!(fingerprint(&plain), fingerprint(&recombobulated));
}

#[test]
fn hot_potato_count_changes_fingerprint() {
    let no_books = base_item("HYPERION", None);
    let ten_books = base_item(
        "HYPERION",
        Some(compound(vec![("hot_potato_count", Value::Int(10))])),
    );

    assert_ne!(fingerprint(&no_books), fingerprint(&ten_books));
}

#[test]
fn absent_modifier_differs_from_empty_string_modifier() {
    let absent = base_item("HYPERION", None);
    let empty = base_item(
        "HYPERION",
        Some(compound(vec![("modifier", Value::String(String::new()))])),
    );

    assert_ne!(fingerprint(&absent), fingerprint(&empty));
}

#[test]
fn enchantment_and_gem_hash_is_independent_of_map_insertion_order() {
    let a = base_item(
        "HYPERION",
        Some(compound(vec![
            (
                "enchantments",
                compound(vec![
                    ("sharpness", Value::Int(7)),
                    ("ultimate_wise", Value::Int(5)),
                ]),
            ),
            (
                "gems",
                compound(vec![
                    ("COMBAT_0", Value::String("RUBY".to_string())),
                    ("COMBAT_1", Value::String("SAPPHIRE".to_string())),
                ]),
            ),
        ])),
    );
    let b = base_item(
        "HYPERION",
        Some(compound(vec![
            (
                "gems",
                compound(vec![
                    ("COMBAT_1", Value::String("SAPPHIRE".to_string())),
                    ("COMBAT_0", Value::String("RUBY".to_string())),
                ]),
            ),
            (
                "enchantments",
                compound(vec![
                    ("ultimate_wise", Value::Int(5)),
                    ("sharpness", Value::Int(7)),
                ]),
            ),
        ])),
    );

    assert_eq!(fingerprint(&a), fingerprint(&b));
}

#[test]
fn gem_quality_inside_nested_compound_affects_fingerprint() {
    let flawless = base_item(
        "HYPERION",
        Some(compound(vec![(
            "gems",
            compound(vec![(
                "COMBAT_0",
                compound(vec![("quality", Value::String("FLAWLESS".to_string()))]),
            )]),
        )])),
    );
    let perfect = base_item(
        "HYPERION",
        Some(compound(vec![(
            "gems",
            compound(vec![(
                "COMBAT_0",
                compound(vec![("quality", Value::String("PERFECT".to_string()))]),
            )]),
        )])),
    );

    assert_ne!(fingerprint(&flawless), fingerprint(&perfect));
}

#[test]
fn skin_and_enrichment_and_ability_scrolls_affect_fingerprint() {
    let plain = base_item("HYPERION", None);
    let skinned = base_item(
        "HYPERION",
        Some(compound(vec![(
            "skin",
            Value::String("HYPERION_ZOMBIE".to_string()),
        )])),
    );
    let enriched = base_item(
        "HYPERION",
        Some(compound(vec![(
            "talisman_enrichment",
            Value::String("critical_chance".to_string()),
        )])),
    );
    let scrolled = base_item(
        "HYPERION",
        Some(compound(vec![(
            "ability_scroll",
            Value::List(vec![Value::String("IMPLOSION_SCROLL".to_string())]),
        )])),
    );

    let fingerprints = [
        fingerprint(&plain),
        fingerprint(&skinned),
        fingerprint(&enriched),
        fingerprint(&scrolled),
    ];

    for i in 0..fingerprints.len() {
        for j in (i + 1)..fingerprints.len() {
            assert_ne!(fingerprints[i], fingerprints[j], "indices {i} and {j}");
        }
    }
}

#[test]
fn missing_extra_attributes_still_fingerprints_deterministically() {
    let a = base_item("ENCHANTED_BOOK", None);
    let b = base_item("ENCHANTED_BOOK", None);

    assert_eq!(fingerprint(&a), fingerprint(&b));
}

#[test]
fn gem_metadata_does_not_affect_fingerprint() {
    let with = |uuid: &str| {
        base_item(
            "HYPERION",
            Some(compound(vec![(
                "gems",
                compound(vec![(
                    "COMBAT_0",
                    compound(vec![
                        ("uuid", Value::String(uuid.to_string())),
                        ("quality", Value::String("PERFECT".to_string())),
                    ]),
                )]),
            )])),
        )
    };
    assert_eq!(fingerprint(&with("one")), fingerprint(&with("another")));
}

#[test]
fn gems_are_written_by_slot_and_quality_only() {
    let written = |gems: Option<Value>| {
        let mut bytes = Vec::new();
        match &gems {
            Some(Value::Compound(fields)) => hash_gems(&mut bytes, Some(fields)),
            _ => hash_gems(&mut bytes, None),
        }
        bytes
    };
    let slots = |uuid: &str| {
        compound(vec![
            ("JADE_0", Value::Compound(Compound::new())),
            (
                "COMBAT_0",
                compound(vec![
                    ("uuid", Value::String(uuid.to_string())),
                    ("quality", Value::String("FINE".to_string())),
                ]),
            ),
        ])
    };
    assert_eq!(written(Some(slots("one"))), written(Some(slots("another"))));
    assert_eq!(written(None), written(Some(compound(vec![]))));
    assert_eq!(written(None), vec![0, 0, 0, 0]);
    assert_ne!(written(None), written(Some(slots("one"))));
}
