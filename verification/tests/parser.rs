use base64::prelude::{Engine as _, BASE64_STANDARD};
use fastnbt::Value as Nbt;
use flate2::{write::GzEncoder, Compression};
use skyblock_flipper::auction::RawAuction;
use skyblock_flipper::nbt::Value;
use skyblock_flipper::parser::{
    decode_item_bytes, decode_nbt_bytes, parse_item, strip_color_codes, ParseError,
};
use std::collections::HashMap;
use std::io::Write;

fn compound(pairs: Vec<(&str, Nbt)>) -> Nbt {
    let mut map = HashMap::new();
    for (k, v) in pairs {
        map.insert(k.to_string(), v);
    }
    Nbt::Compound(map)
}

fn text(s: &str) -> Nbt {
    Nbt::String(s.to_string())
}

fn gzipped(bytes: &[u8]) -> String {
    let mut encoder = GzEncoder::new(Vec::new(), Compression::default());
    encoder.write_all(bytes).unwrap();
    BASE64_STANDARD.encode(encoder.finish().unwrap())
}

fn encode_item_bytes(value: &Nbt) -> String {
    gzipped(&fastnbt::to_bytes(value).unwrap())
}

fn raw_auction(item_bytes: String) -> RawAuction {
    RawAuction {
        uuid: "auction-uuid".to_string(),
        auctioneer: "seller-uuid".to_string(),
        item_name: "Hyperion".to_string(),
        starting_bid: 900_000_000,
        item_bytes,
        bin: Some(true),
        end: 1_690_003_600_000,
    }
}

fn stack(fields: Vec<(&str, Nbt)>) -> Nbt {
    compound(vec![("i", Nbt::List(vec![compound(fields)]))])
}

#[test]
fn parses_skyblock_id_and_display_name() {
    let value = stack(vec![
        ("Count", Nbt::Byte(1)),
        (
            "tag",
            compound(vec![
                (
                    "ExtraAttributes",
                    compound(vec![("id", text("HYPERION")), ("uuid", text("item-uuid"))]),
                ),
                ("display", compound(vec![("Name", text("\u{00a7}6Hyperion"))])),
            ]),
        ),
    ]);

    let auction = raw_auction(encode_item_bytes(&value));
    let parsed = parse_item(&auction).expect("should parse");

    assert_eq!(parsed.skyblock_item_id, "HYPERION");
    assert_eq!(parsed.display_name, "Hyperion");
    assert_eq!(parsed.count, 1);
    assert_eq!(parsed.uuid, "auction-uuid");
    assert_eq!(parsed.starting_bid, 900_000_000);
    assert!(parsed.bin);
    assert!(parsed.extra_attributes.is_some());
}

#[test]
fn falls_back_to_skyblock_id_when_display_name_missing() {
    let value = stack(vec![
        ("Count", Nbt::Byte(1)),
        (
            "tag",
            compound(vec![(
                "ExtraAttributes",
                compound(vec![("id", text("ENCHANTED_BOOK"))]),
            )]),
        ),
    ]);

    let auction = raw_auction(encode_item_bytes(&value));
    let parsed = parse_item(&auction).expect("should parse");

    assert_eq!(parsed.display_name, "ENCHANTED_BOOK");
}

#[test]
fn missing_extra_attributes_id_is_an_error() {
    let value = stack(vec![
        ("Count", Nbt::Byte(1)),
        (
            "tag",
            compound(vec![(
                "display",
                compound(vec![("Name", text("Mystery Item"))]),
            )]),
        ),
    ]);

    let auction = raw_auction(encode_item_bytes(&value));
    let err = parse_item(&auction).unwrap_err();

    assert!(matches!(err, ParseError::MissingSkyblockId));
}

#[test]
fn empty_item_list_is_an_error() {
    let value = compound(vec![("i", Nbt::List(vec![]))]);

    let auction = raw_auction(encode_item_bytes(&value));
    let err = parse_item(&auction).unwrap_err();

    assert!(matches!(err, ParseError::EmptyItemList));
}

#[test]
fn invalid_base64_is_an_error() {
    let auction = raw_auction("not valid base64 !!!".to_string());
    let err = parse_item(&auction).unwrap_err();

    assert!(matches!(err, ParseError::Base64(_)));
}

#[test]
fn bytes_that_are_not_gzip_are_an_error() {
    let err = decode_item_bytes(&BASE64_STANDARD.encode(b"plain")).unwrap_err();
    assert!(matches!(err, ParseError::Gzip(_)));
}

#[test]
fn bytes_that_are_not_nbt_are_an_error() {
    let err = decode_item_bytes(&gzipped(b"neither this")).unwrap_err();
    assert!(matches!(err, ParseError::Nbt(_)));
    assert!(matches!(decode_nbt_bytes(&[]).unwrap_err(), ParseError::Nbt(_)));
}

#[test]
fn nbt_of_another_shape_is_an_error() {
    let without_list = compound(vec![("other", Nbt::Int(1))]);
    let without_count = stack(vec![("tag", compound(vec![]))]);
    let count_too_large = stack(vec![("Count", Nbt::Int(128))]);
    let numeric_id = stack(vec![
        ("Count", Nbt::Byte(1)),
        (
            "tag",
            compound(vec![("ExtraAttributes", compound(vec![("id", Nbt::Int(7))]))]),
        ),
    ]);
    let tag_is_text = stack(vec![("Count", Nbt::Byte(1)), ("tag", text("x"))]);
    let numeric_name = stack(vec![
        ("Count", Nbt::Byte(1)),
        ("tag", compound(vec![("display", compound(vec![("Name", Nbt::Byte(1))]))])),
    ]);
    for value in [
        without_list,
        without_count,
        count_too_large,
        numeric_id,
        tag_is_text,
        numeric_name,
    ] {
        let bytes = fastnbt::to_bytes(&value).unwrap();
        let err = decode_nbt_bytes(&bytes).unwrap_err();
        assert!(matches!(err, ParseError::Nbt(_)), "{:?}", value);
    }
}

#[test]
fn every_stack_has_to_have_the_shape_of_one() {
    let good = compound(vec![("Count", Nbt::Byte(1))]);
    let bad = compound(vec![("Size", Nbt::Byte(1))]);
    let value = compound(vec![("i", Nbt::List(vec![good, bad]))]);
    let err = decode_nbt_bytes(&fastnbt::to_bytes(&value).unwrap()).unwrap_err();
    assert!(matches!(err, ParseError::Nbt(_)));
}

#[test]
fn the_id_is_taken_out_of_the_attributes_and_the_rest_is_kept() {
    let value = stack(vec![
        ("Count", Nbt::Short(64)),
        (
            "tag",
            compound(vec![(
                "ExtraAttributes",
                compound(vec![
                    ("id", text("STICK")),
                    ("bytes", Nbt::ByteArray(fastnbt::ByteArray::new(vec![1, -2]))),
                    ("ints", Nbt::IntArray(fastnbt::IntArray::new(vec![3]))),
                    ("longs", Nbt::LongArray(fastnbt::LongArray::new(vec![4]))),
                    ("float", Nbt::Float(1.5)),
                    ("double", Nbt::Double(2.5)),
                    ("long", Nbt::Long(1 << 40)),
                    ("list", Nbt::List(vec![text("a"), text("b")])),
                    ("inner", compound(vec![("level", Nbt::Int(5))])),
                ]),
            )]),
        ),
    ]);
    let item = decode_nbt_bytes(&fastnbt::to_bytes(&value).unwrap()).unwrap();
    assert_eq!(item.count, 64);
    let fields = match item.extra_attributes {
        Some(Value::Compound(fields)) => fields,
        other => panic!("expected a compound, got {other:?}"),
    };
    assert_eq!(fields.len(), 8);
    assert_eq!(fields.get("id"), None);
    assert_eq!(fields.get("bytes"), Some(&Value::ByteArray(vec![1, -2])));
    assert_eq!(fields.get("ints"), Some(&Value::IntArray(vec![3])));
    assert_eq!(fields.get("longs"), Some(&Value::LongArray(vec![4])));
    assert_eq!(fields.get("float"), Some(&Value::Float(1.5f32.to_bits())));
    assert_eq!(fields.get("double"), Some(&Value::Double(2.5f64.to_bits())));
    assert_eq!(fields.get("long"), Some(&Value::Long(1 << 40)));
    assert_eq!(
        fields.get("list"),
        Some(&Value::List(vec![
            Value::String("a".to_string()),
            Value::String("b".to_string())
        ]))
    );
    match fields.get("inner") {
        Some(Value::Compound(inner)) => assert_eq!(inner.get("level"), Some(&Value::Int(5))),
        other => panic!("expected a compound, got {other:?}"),
    }
}

#[test]
fn an_auction_that_does_not_say_so_cannot_be_bought_at_once() {
    let value = stack(vec![
        ("Count", Nbt::Byte(1)),
        (
            "tag",
            compound(vec![("ExtraAttributes", compound(vec![("id", text("STICK"))]))]),
        ),
    ]);
    let mut auction = raw_auction(encode_item_bytes(&value));
    auction.bin = None;
    assert!(!parse_item(&auction).unwrap().bin);
    auction.bin = Some(false);
    assert!(!parse_item(&auction).unwrap().bin);
}

#[test]
fn formatting_codes_are_stripped_wherever_they_stand() {
    assert_eq!(strip_color_codes("\u{00a7}6Hyperion"), "Hyperion");
    assert_eq!(strip_color_codes("a\u{00a7}lb\u{00a7}rc"), "abc");
    assert_eq!(strip_color_codes("\u{00a7}\u{00a7}a"), "a");
    assert_eq!(strip_color_codes("end\u{00a7}"), "end");
    assert_eq!(strip_color_codes("none"), "none");
    assert_eq!(strip_color_codes(""), "");
}

#[test]
fn an_array_counts_as_a_compound_without_fields() {
    let attributes = compound(vec![("id", text("HYPERION"))]);
    let value = stack(vec![
        ("Count", Nbt::Byte(1)),
        (
            "tag",
            compound(vec![
                ("ExtraAttributes", attributes),
                ("display", Nbt::IntArray(fastnbt::IntArray::new(vec![1, 2]))),
            ]),
        ),
    ]);
    let item = decode_item_bytes(&encode_item_bytes(&value)).unwrap();
    assert_eq!(item.display_name, "HYPERION");

    let value = stack(vec![
        ("Count", Nbt::Byte(1)),
        ("tag", Nbt::ByteArray(fastnbt::ByteArray::new(vec![1]))),
    ]);
    assert!(matches!(
        decode_item_bytes(&encode_item_bytes(&value)),
        Err(ParseError::MissingSkyblockId)
    ));
}

#[test]
fn tag_and_display_may_be_lists_of_their_parts() {
    let attributes = compound(vec![("id", text("HYPERION")), ("n", Nbt::Int(3))]);
    let named = Nbt::List(vec![text("\u{00a7}6Hyperion")]);
    let value = stack(vec![
        ("Count", Nbt::Byte(2)),
        (
            "tag",
            compound(vec![("ExtraAttributes", attributes.clone()), ("display", named)]),
        ),
    ]);
    let item = decode_item_bytes(&encode_item_bytes(&value)).unwrap();
    assert_eq!(item.display_name, "Hyperion");

    let display = compound(vec![("Name", text("\u{00a7}6Hyperion"))]);
    let value = stack(vec![
        ("Count", Nbt::Byte(2)),
        ("tag", Nbt::List(vec![attributes.clone(), display])),
    ]);
    let item = decode_item_bytes(&encode_item_bytes(&value)).unwrap();
    assert_eq!(item.skyblock_item_id, "HYPERION");
    assert_eq!(item.display_name, "Hyperion");
    assert_eq!(item.count, 2);

    for tag in [Nbt::List(vec![attributes]), Nbt::List(vec![])] {
        let value = stack(vec![("Count", Nbt::Byte(1)), ("tag", tag)]);
        assert!(matches!(
            decode_item_bytes(&encode_item_bytes(&value)),
            Err(ParseError::Nbt(_))
        ));
    }
}
