use skyblock_flipper::order::{not_after, sort_texts};
use skyblock_flipper::table::StringTable;
use skyblock_flipper::text::{
    ends_with, parse_i32, parse_i64, parse_unsigned, push_decimal, same_text, split_text,
    split_text_once, trim,
};

fn strings(list: &[&str]) -> Vec<String> {
    list.iter().map(|s| s.to_string()).collect()
}

#[test]
fn texts_split_at_every_separator() {
    assert_eq!(split_text("a,b,,c", ','), strings(&["a", "b", "", "c"]));
    assert_eq!(split_text("", ','), strings(&[""]));
    assert_eq!(split_text(",", ','), strings(&["", ""]));
}

#[test]
fn texts_split_once_at_the_first_separator() {
    assert_eq!(
        split_text_once("a.b.c", '.'),
        Some(("a".to_string(), "b.c".to_string()))
    );
    assert_eq!(split_text_once("abc", '.'), None);
}

#[test]
fn white_space_is_trimmed_at_both_ends() {
    assert_eq!(trim("  a b\t\n"), "a b");
    assert_eq!(trim("\u{2003}x\u{a0}"), "x");
    assert_eq!(trim(" \r\n "), "");
    assert_eq!(trim(""), "");
}

#[test]
fn integers_are_parsed_within_their_bounds() {
    assert_eq!(parse_i64("-9223372036854775808"), Some(i64::MIN));
    assert_eq!(parse_i64("9223372036854775807"), Some(i64::MAX));
    assert_eq!(parse_i64("9223372036854775808"), None);
    assert_eq!(parse_i64("+5"), Some(5));
    assert_eq!(parse_i64("-0"), Some(0));
    assert_eq!(parse_i64("--5"), None);
    assert_eq!(parse_i64("+-5"), None);
    assert_eq!(parse_i64(""), None);
    assert_eq!(parse_i64("-"), None);
    assert_eq!(parse_i64(" 5"), None);
    assert_eq!(parse_i32("2147483647"), Some(i32::MAX));
    assert_eq!(parse_i32("-2147483649"), None);
    assert_eq!(parse_unsigned("18446744073709551615", u64::MAX), Some(u64::MAX));
    assert_eq!(parse_unsigned("18446744073709551616", u64::MAX), None);
    assert_eq!(parse_unsigned("00012", 12), Some(12));
    assert_eq!(parse_unsigned("13", 12), None);
    assert_eq!(parse_unsigned("-1", 12), None);
}

#[test]
fn parsing_agrees_with_the_standard_library() {
    for s in ["0", "-7", "+7", "07", "1e3", "", "+", "99999999999", "\u{0663}", "1_0"] {
        assert_eq!(parse_i64(s), s.parse::<i64>().ok(), "{:?}", s);
        assert_eq!(parse_i32(s), s.parse::<i32>().ok(), "{:?}", s);
        assert_eq!(parse_unsigned(s, u64::MAX), s.parse::<u64>().ok(), "{:?}", s);
    }
}

#[test]
fn numbers_are_written_in_decimal_and_read_back() {
    for n in [0, 9, 10, 1_234_567, u64::MAX] {
        let mut out = "n=".to_string();
        push_decimal(&mut out, n);
        assert_eq!(out, format!("n={n}"));
        assert_eq!(parse_unsigned(&out[2..], u64::MAX), Some(n));
    }
}

#[test]
fn texts_are_compared_by_characters() {
    assert!(same_text("\u{e9}a", "\u{e9}a"));
    assert!(!same_text("a", "ab"));
    assert!(!same_text("a", "b"));
}

#[test]
fn the_order_of_texts_is_that_of_strings() {
    let list = ["", "a", "ab", "b", "B", "\u{e9}", "\u{ffff}", "\u{10000}", "a\u{0}"];
    for a in list {
        for b in list {
            assert_eq!(not_after(a, b), a <= b, "{:?} {:?}", a, b);
        }
    }
    let mut expected = strings(&list);
    expected.push("a".to_string());
    let given = expected.clone();
    expected.sort();
    assert_eq!(sort_texts(given), expected);
}

#[test]
fn a_table_remembers_the_order_of_first_insertion() {
    let mut table: StringTable<u32> = StringTable::new();
    table.insert("b".to_string(), 1);
    table.insert("a".to_string(), 2);
    table.insert("b".to_string(), 3);
    assert_eq!(table.len(), 2);
    assert_eq!(table.key_at(0), "b");
    assert_eq!(table.value_at(0), &3);
    assert_eq!(table.get("a"), Some(&2));
    assert_eq!(table.get("c"), None);
    assert!(table.contains_key("b"));
    let copy = table.duplicate();
    table.insert("c".to_string(), 4);
    assert_eq!(copy.len(), 2);
    assert_eq!(copy.get("b"), Some(&3));
}

#[test]
fn texts_end_in_their_last_characters() {
    assert!(ends_with("abc", "bc"));
    assert!(ends_with("abc", "abc"));
    assert!(ends_with("abc", ""));
    assert!(!ends_with("abc", "ab"));
    assert!(!ends_with("c", "bc"));
}

#[test]
fn white_space_is_what_the_standard_library_counts_as_such() {
    for c in '\u{0}'..=char::MAX {
        assert_eq!(trim(&c.to_string()).is_empty(), c.is_whitespace(), "{c:?}");
        let code = c as u32;
        let listed = matches!(
            code,
            0x9..=0xd
                | 0x20
                | 0x85
                | 0xa0
                | 0x1680
                | 0x2000..=0x200a
                | 0x2028
                | 0x2029
                | 0x202f
                | 0x205f
                | 0x3000
        );
        assert_eq!(listed, c.is_whitespace(), "{c:?}");
    }
}
