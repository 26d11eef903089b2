use skyblock_flipper::nbt::{as_compound, as_int, read, Compound, Value};

fn fields(names: &[&str]) -> Compound {
    let mut c = Compound::new();
    for (i, name) in names.iter().enumerate() {
        c.insert(name.to_string(), Value::Int(i as i32));
    }
    c
}

#[test]
fn names_stand_in_ascending_order_each_once() {
    let c = fields(&["m", "a", "z", "a"]);
    assert_eq!(c.len(), 3);
    assert_eq!(c.name_at(0), "a");
    assert_eq!(c.value_at(0), &Value::Int(3));
    assert_eq!(c.name_at(1), "m");
    assert_eq!(c.name_at(2), "z");
}

#[test]
fn compounds_are_equal_whatever_the_order_of_insertion() {
    let mut a = Compound::new();
    a.insert("x".to_string(), Value::Byte(1));
    a.insert("y".to_string(), Value::Byte(2));
    let mut b = Compound::new();
    b.insert("y".to_string(), Value::Byte(2));
    b.insert("x".to_string(), Value::Byte(1));
    assert_eq!(a, b);
    assert_eq!(Value::Compound(a.clone()), Value::Compound(b).clone());
}

#[test]
fn a_removed_field_is_gone_and_the_others_stay() {
    let mut c = fields(&["a", "b", "c"]);
    c.remove("b");
    c.remove("none");
    assert_eq!(c.len(), 2);
    assert_eq!(c.get("a"), Some(&Value::Int(0)));
    assert_eq!(c.get("b"), None);
    assert_eq!(c.get("c"), Some(&Value::Int(2)));
}

#[test]
fn the_four_integer_tags_are_integers() {
    assert_eq!(as_int(&Value::Byte(-1)), Some(-1));
    assert_eq!(as_int(&Value::Short(300)), Some(300));
    assert_eq!(as_int(&Value::Int(70_000)), Some(70_000));
    assert_eq!(as_int(&Value::Long(i64::MIN)), Some(i64::MIN));
    assert_eq!(as_int(&Value::Float(1)), None);
    assert_eq!(as_int(&Value::String("1".to_string())), None);
    assert!(as_compound(&Value::Compound(Compound::new())).is_some());
    assert!(as_compound(&Value::List(vec![])).is_none());
}

#[test]
fn encoded_nbt_is_read_into_values() {
    // A compound with an empty name, holding the byte "a" and the list "l"
    // of two shorts.
    let bytes = [
        10, 0, 0, 1, 0, 1, b'a', 0xfe, 9, 0, 1, b'l', 2, 0, 0, 0, 2, 0, 1, 1, 0, 0,
    ];
    let value = read(&bytes).unwrap();
    let mut expected = Compound::new();
    expected.insert("a".to_string(), Value::Byte(-2));
    expected.insert(
        "l".to_string(),
        Value::List(vec![Value::Short(1), Value::Short(256)]),
    );
    assert_eq!(value, Value::Compound(expected));
    assert!(read(&bytes[..10]).is_err());
}
