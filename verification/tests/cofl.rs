use base64::prelude::{Engine as _, BASE64_STANDARD};
use fastnbt::Value as Nbt;
use flate2::{write::GzEncoder, Compression};
use skyblock_flipper::calendar::{days_from_civil, parse_rfc3339_millis};
use skyblock_flipper::cofl::{
    build_reconstructed_value, decode_short_item_bytes, fingerprint_of, flat_int, flat_str,
    major_modifier_key_of, normalize, normalize_page, pascal_to_snake, sold_page_url,
    value_to_snake_case_label, CoflEnchantment, CoflSoldAuction, EnchantmentKind, HistoricalSale,
    ReconstructedAttributes,
};
use skyblock_flipper::fingerprint::fingerprint;
use skyblock_flipper::nbt::{Compound, Value};
use skyblock_flipper::parser::{decode_item_bytes, ParsedItem};
use skyblock_flipper::table::StringTable;
use std::collections::HashMap;
use std::io::Write;

fn compound(pairs: Vec<(&str, Nbt)>) -> Nbt {
    let mut map = HashMap::new();
    for (k, v) in pairs {
        map.insert(k.to_string(), v);
    }
    Nbt::Compound(map)
}

fn item_nbt(attributes: Vec<(&str, Nbt)>) -> Nbt {
    compound(vec![(
        "i",
        Nbt::List(vec![compound(vec![
            ("Count", Nbt::Byte(1)),
            ("tag", compound(vec![("ExtraAttributes", compound(attributes))])),
        ])]),
    )])
}

fn encode_item_bytes(value: &Nbt) -> String {
    let nbt_bytes = fastnbt::to_bytes(value).unwrap();
    let mut encoder = GzEncoder::new(Vec::new(), Compression::default());
    encoder.write_all(&nbt_bytes).unwrap();
    let gzipped = encoder.finish().unwrap();
    BASE64_STANDARD.encode(gzipped)
}

fn report() -> CoflSoldAuction {
    CoflSoldAuction {
        tag: None,
        starting_bid: None,
        highest_bid_amount: None,
        bin: None,
        end: None,
        enchantments: None,
        short_item_bytes: None,
        flattened_nbt: None,
    }
}

fn flat(pairs: Vec<(&str, Option<&str>)>) -> Option<StringTable<Option<String>>> {
    let mut table = StringTable::new();
    for (k, v) in pairs {
        table.insert(k.to_string(), v.map(|s| s.to_string()));
    }
    Some(table)
}

#[test]
fn pascal_to_snake_conversions() {
    assert_eq!(pascal_to_snake("UltimateWise"), "ultimate_wise");
    assert_eq!(pascal_to_snake("Sharpness"), "sharpness");
    assert_eq!(pascal_to_snake("already_snake"), "already_snake");
}

#[test]
fn letters_beyond_ascii_are_lowered_too() {
    assert_eq!(pascal_to_snake("\u{c4}\u{d6}x"), "\u{e4}_\u{f6}x");
    assert_eq!(pascal_to_snake(""), "");
    assert_eq!(pascal_to_snake("A1B"), "a1_b");
}

#[test]
fn parses_basic_rfc3339_utc_timestamp() {
    assert_eq!(
        parse_rfc3339_millis("2021-01-01T00:00:00Z"),
        Some(1_609_459_200_000)
    );
}

#[test]
fn parses_rfc3339_with_fractional_seconds() {
    assert_eq!(
        parse_rfc3339_millis("2021-01-01T00:00:00.500Z"),
        Some(1_609_459_200_500)
    );
}

#[test]
fn unparseable_timestamp_returns_none_gracefully() {
    assert_eq!(parse_rfc3339_millis("not-a-timestamp"), None);
}

#[test]
fn timestamps_of_other_forms_are_refused() {
    assert_eq!(parse_rfc3339_millis("2021-01-01T00:00:00"), None);
    assert_eq!(parse_rfc3339_millis("2021-01-01 00:00:00Z"), None);
    assert_eq!(parse_rfc3339_millis("2021-01T00:00:00Z"), None);
    assert_eq!(parse_rfc3339_millis("2021-01-01T00:00Z"), None);
    assert_eq!(parse_rfc3339_millis("2021-01-01T00:00:00.x00Z"), None);
    assert_eq!(parse_rfc3339_millis(""), None);
    assert_eq!(parse_rfc3339_millis("9999999999999999-01-01T00:00:00Z"), None);
}

#[test]
fn fractions_are_read_to_the_millisecond() {
    assert_eq!(parse_rfc3339_millis("1970-01-01T00:00:00.1Z"), Some(100));
    assert_eq!(parse_rfc3339_millis("1970-01-01T00:00:01.23456Z"), Some(1_234));
    assert_eq!(parse_rfc3339_millis("1970-01-01T00:01:00.Z"), Some(60_000));
    assert_eq!(parse_rfc3339_millis("1969-12-31T23:59:59.999Z"), Some(-1));
}

#[test]
fn days_follow_the_calendar() {
    assert_eq!(days_from_civil(1970, 1, 1), 0);
    assert_eq!(days_from_civil(1970, 1, 2), 1);
    assert_eq!(days_from_civil(1969, 12, 31), -1);
    assert_eq!(days_from_civil(2000, 2, 29), 11_016);
    assert_eq!(days_from_civil(2000, 3, 1), 11_017);
    assert_eq!(days_from_civil(2100, 3, 1) - days_from_civil(2100, 2, 28), 1);
    assert_eq!(days_from_civil(0, 3, 1), -719_468);
}

#[test]
fn shortitembytes_path_produces_the_same_fingerprint_as_a_live_auction() {
    let value = item_nbt(vec![
        ("id", Nbt::String("HYPERION".to_string())),
        ("hot_potato_count", Nbt::Int(10)),
        ("enchantments", compound(vec![("ultimate_wise", Nbt::Int(5))])),
    ]);
    let encoded = encode_item_bytes(&value);

    let sale = HistoricalSale {
        item_tag: "HYPERION".to_string(),
        sale_price: 1_000_000,
        sold_at: 1_000,
        extra_attributes: decode_short_item_bytes(&encoded),
        reconstructed: ReconstructedAttributes::default(),
    };

    let live_item = ParsedItem {
        uuid: String::new(),
        auctioneer: String::new(),
        skyblock_item_id: "HYPERION".to_string(),
        display_name: "HYPERION".to_string(),
        count: 1,
        starting_bid: 1_000_000,
        bin: true,
        end: 1_000,
        extra_attributes: decode_item_bytes(&encoded).unwrap().extra_attributes,
    };

    assert_eq!(fingerprint_of(&sale), fingerprint(&live_item));
}

#[test]
fn reconstruction_fallback_matches_real_nbt_when_assumptions_hold() {
    let value = item_nbt(vec![
        ("id", Nbt::String("HYPERION".to_string())),
        ("hot_potato_count", Nbt::Int(10)),
        ("modifier", Nbt::String("wise".to_string())),
    ]);
    let encoded = encode_item_bytes(&value);

    let real = HistoricalSale {
        item_tag: "HYPERION".into(),
        sale_price: 1,
        sold_at: 1,
        extra_attributes: decode_short_item_bytes(&encoded),
        reconstructed: ReconstructedAttributes::default(),
    };

    let reconstructed = HistoricalSale {
        item_tag: "HYPERION".into(),
        sale_price: 1,
        sold_at: 1,
        extra_attributes: None,
        reconstructed: ReconstructedAttributes {
            reforge: Some("wise".into()),
            hot_potato_count: Some(10),
            ..Default::default()
        },
    };

    assert_eq!(fingerprint_of(&real), fingerprint_of(&reconstructed));
    assert_eq!(
        major_modifier_key_of(&real),
        major_modifier_key_of(&reconstructed)
    );
}

#[test]
fn item_bytes_without_gzip_are_decoded_as_plain_nbt() {
    let value = item_nbt(vec![
        ("id", Nbt::String("STICK".to_string())),
        ("hot_potato_count", Nbt::Int(3)),
    ]);
    let plain = BASE64_STANDARD.encode(fastnbt::to_bytes(&value).unwrap());
    match decode_short_item_bytes(&plain) {
        Some(Value::Compound(fields)) => {
            assert_eq!(fields.get("hot_potato_count"), Some(&Value::Int(3)))
        }
        other => panic!("expected a compound, got {other:?}"),
    }
    assert_eq!(decode_short_item_bytes("!"), None);
    assert_eq!(decode_short_item_bytes(&BASE64_STANDARD.encode(b"neither")), None);
}

#[test]
fn normalize_prefers_bin_starting_bid_as_sale_price() {
    let raw = CoflSoldAuction {
        tag: Some("HYPERION".to_string()),
        starting_bid: Some(900000000),
        highest_bid_amount: Some(0),
        bin: Some(true),
        end: Some("2021-01-01T00:00:00Z".to_string()),
        ..report()
    };

    let sale = normalize("HYPERION", raw).unwrap();
    assert_eq!(sale.sale_price, 900_000_000);
    assert_eq!(sale.sold_at, 1_609_459_200_000);
}

#[test]
fn normalize_uses_highest_bid_for_non_bin_auctions() {
    let raw = CoflSoldAuction {
        tag: Some("HYPERION".to_string()),
        starting_bid: Some(500000),
        highest_bid_amount: Some(750000),
        bin: Some(false),
        end: Some("2021-01-01T00:00:00Z".to_string()),
        ..report()
    };

    let sale = normalize("HYPERION", raw).unwrap();
    assert_eq!(sale.sale_price, 750_000);
}

#[test]
fn normalize_skips_unsold_non_bin_auctions() {
    let raw = CoflSoldAuction {
        tag: Some("HYPERION".to_string()),
        starting_bid: Some(500000),
        bin: Some(false),
        end: Some("2021-01-01T00:00:00Z".to_string()),
        ..report()
    };

    assert!(normalize("HYPERION", raw).is_none());
}

#[test]
fn normalize_falls_back_to_the_hint_tag_when_tag_is_absent() {
    let raw = CoflSoldAuction {
        starting_bid: Some(100),
        bin: Some(true),
        end: Some("2021-01-01T00:00:00Z".to_string()),
        ..report()
    };

    let sale = normalize("HYPERION", raw).unwrap();
    assert_eq!(sale.item_tag, "HYPERION");
}

#[test]
fn normalize_skips_sales_for_nothing() {
    let free = CoflSoldAuction { starting_bid: Some(0), bin: Some(true), ..report() };
    assert!(normalize("X", free).is_none());
    let unpriced = CoflSoldAuction { bin: Some(true), ..report() };
    assert!(normalize("X", unpriced).is_none());
    let no_bids = CoflSoldAuction { highest_bid_amount: Some(0), ..report() };
    assert!(normalize("X", no_bids).is_none());
}

#[test]
fn a_page_of_reports_keeps_the_sales_in_order() {
    let page = vec![
        CoflSoldAuction {
            tag: Some("HYPERION".to_string()),
            starting_bid: Some(900000000),
            highest_bid_amount: Some(0),
            bin: Some(true),
            end: Some("2021-01-01T00:00:00Z".to_string()),
            enchantments: Some(vec![
                CoflEnchantment {
                    kind: EnchantmentKind::Text("UltimateWise".to_string()),
                    level: 5,
                },
                CoflEnchantment { kind: EnchantmentKind::Other, level: 1 },
                CoflEnchantment { kind: EnchantmentKind::Number("17".to_string()), level: 2 },
            ]),
            flattened_nbt: flat(vec![("hot_potato_count", Some("10"))]),
            ..report()
        },
        report(),
        CoflSoldAuction { highest_bid_amount: Some(7), end: Some("?".to_string()), ..report() },
    ];
    let sales = normalize_page("FALLBACK", page);
    assert_eq!(sales.len(), 2);
    assert_eq!(sales[0].sale_price, 900_000_000);
    assert_eq!(sales[0].reconstructed.hot_potato_count, Some(10));
    assert_eq!(
        sales[0].reconstructed.enchantments,
        vec![("ultimate_wise".to_string(), 5), ("unknown_17".to_string(), 2)]
    );
    assert_eq!(sales[1].item_tag, "FALLBACK");
    assert_eq!(sales[1].sale_price, 7);
    assert_eq!(sales[1].sold_at, 0);
}

#[test]
fn enchantments_without_a_name_have_no_label() {
    assert_eq!(value_to_snake_case_label(&EnchantmentKind::Text(String::new())), None);
    assert_eq!(value_to_snake_case_label(&EnchantmentKind::Other), None);
    assert_eq!(
        value_to_snake_case_label(&EnchantmentKind::Number("3".to_string())),
        Some("unknown_3".to_string())
    );
}

#[test]
fn flattened_fields_are_read_as_text_and_as_numbers() {
    let fields = flat(vec![
        ("a", Some("x")),
        ("empty", Some("")),
        ("null", None),
        ("n", Some("-12")),
        ("plus", Some("+7")),
        ("large", Some("2147483648")),
    ]);
    assert_eq!(flat_str(&fields, "a"), Some("x".to_string()));
    assert_eq!(flat_str(&fields, "empty"), None);
    assert_eq!(flat_str(&fields, "null"), None);
    assert_eq!(flat_str(&fields, "absent"), None);
    assert_eq!(flat_str(&None, "a"), None);
    assert_eq!(flat_int(&fields, "n"), Some(-12));
    assert_eq!(flat_int(&fields, "plus"), Some(7));
    assert_eq!(flat_int(&fields, "large"), None);
    assert_eq!(flat_int(&fields, "a"), None);
}

#[test]
fn reconstructed_attributes_hold_what_is_known() {
    let value = build_reconstructed_value(&ReconstructedAttributes {
        reforge: Some("wise".to_string()),
        enchantments: vec![("sharpness".to_string(), 6), ("sharpness".to_string(), 7)],
        rarity_upgrades: Some(1),
        ..Default::default()
    });
    let mut inner = Compound::new();
    inner.insert("sharpness".to_string(), Value::Int(7));
    let mut fields = Compound::new();
    fields.insert("modifier".to_string(), Value::String("wise".to_string()));
    fields.insert("rarity_upgrades".to_string(), Value::Int(1));
    fields.insert("enchantments".to_string(), Value::Compound(inner));
    assert_eq!(value, Value::Compound(fields));

    let empty = build_reconstructed_value(&ReconstructedAttributes::default());
    assert_eq!(empty, Value::Compound(Compound::new()));
}

#[test]
fn the_address_of_a_page_names_tag_and_number() {
    assert_eq!(
        sold_page_url("http://x", "HYPERION", 12),
        "http://x/api/auctions/tag/HYPERION/sold?page=12"
    );
}

#[test]
fn a_base_that_ends_in_the_segment_does_not_get_it_twice() {
    assert_eq!(
        sold_page_url("https://sky.coflnet.com/api", "HYPERION", 0),
        "https://sky.coflnet.com/api/auctions/tag/HYPERION/sold?page=0"
    );
    assert_eq!(
        sold_page_url("http://x/apis", "A", 1),
        "http://x/apis/api/auctions/tag/A/sold?page=1"
    );
    assert_eq!(sold_page_url("api", "A", 1), "api/api/auctions/tag/A/sold?page=1");
    assert_eq!(sold_page_url("", "A", 1), "/api/auctions/tag/A/sold?page=1");
}
