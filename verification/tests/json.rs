use mjae::canonical_json;
use mjae::json::plain_json;
use serde_json::{Number, Value};

fn object(fields: Vec<(&str, Value)>) -> Value {
    let mut map = serde_json::Map::new();
    for (key, value) in fields {
        map.insert(key.to_owned(), value);
    }
    Value::Object(map)
}

fn text_of(bytes: Vec<u8>) -> String {
    String::from_utf8(bytes).expect("canonical bytes are valid utf-8")
}

fn number(n: u64) -> Value {
    Value::Number(Number::from(n))
}

fn sample() -> Value {
    object(vec![
        ("z", number(1)),
        ("a", number(2)),
        ("m", object(vec![("y", number(3)), ("b", number(4))])),
    ])
}

#[test]
fn canonical_json_sorts_object_keys() {
    let bytes = canonical_json(&sample()).expect("canonical encoding should succeed");
    assert_eq!(text_of(bytes), r#"{"a":2,"m":{"b":4,"y":3},"z":1}"#);
}

#[test]
fn plain_json_keeps_the_order_of_the_fields() {
    let bytes = plain_json(&sample()).unwrap();
    assert_eq!(text_of(bytes), r#"{"z":1,"a":2,"m":{"y":3,"b":4}}"#);
}

#[test]
fn arrays_keep_their_order() {
    let value = Value::Array(vec![
        number(3),
        object(vec![("b", Value::Null), ("a", Value::Bool(true))]),
        Value::String("x".to_owned()),
        number(1),
    ]);
    assert_eq!(
        text_of(canonical_json(&value).unwrap()),
        r#"[3,{"a":true,"b":null},"x",1]"#
    );
}

#[test]
fn canonical_form_is_reached_in_one_step() {
    let once = canonical_json(&sample()).unwrap();
    let parsed: Value = serde_json::from_slice(&once).unwrap();
    assert_eq!(canonical_json(&parsed).unwrap(), once);
    assert_eq!(plain_json(&parsed).unwrap(), once);
}

#[test]
fn field_order_does_not_show() {
    let other = object(vec![
        ("m", object(vec![("b", number(4)), ("y", number(3))])),
        ("z", number(1)),
        ("a", number(2)),
    ]);
    assert_eq!(canonical_json(&other), canonical_json(&sample()));
}

#[test]
fn keys_sort_by_code_point_and_prefixes_come_first() {
    let value = object(vec![
        ("é", number(1)),
        ("ab", number(2)),
        ("z", number(3)),
        ("a", number(4)),
        ("", number(5)),
        ("B", number(6)),
        ("\u{10000}", number(7)),
        ("\u{ffff}", number(8)),
    ]);
    assert_eq!(
        text_of(canonical_json(&value).unwrap()),
        "{\"\":5,\"B\":6,\"a\":4,\"ab\":2,\"z\":3,\"é\":1,\"\u{ffff}\":8,\"\u{10000}\":7}"
    );
}

#[test]
fn numbers_and_strings_survive() {
    let value = Value::Array(vec![
        Value::Number(Number::from(-5_i64)),
        number(u64::MAX),
        Value::String("a\"b\\c\n".to_owned()),
        object(vec![]),
        Value::Array(vec![]),
    ]);
    assert_eq!(
        text_of(canonical_json(&value).unwrap()),
        "[-5,18446744073709551615,\"a\\\"b\\\\c\\n\",{},[]]"
    );
}

#[test]
fn field_order_does_not_show_at_any_depth() {
    let inner = |swapped: bool| {
        let mut fields = vec![("q", number(1)), ("p", Value::Bool(false))];
        if swapped {
            fields.reverse();
        }
        object(fields)
    };
    let document = |swapped: bool| {
        Value::Array(vec![object(vec![
            ("k", Value::Array(vec![inner(swapped), number(2)])),
            ("j", object(vec![("i", inner(!swapped))])),
        ])])
    };
    let bytes = canonical_json(&document(false)).unwrap();
    assert_eq!(canonical_json(&document(true)).unwrap(), bytes);
    assert_eq!(
        text_of(bytes.clone()),
        r#"[{"j":{"i":{"p":false,"q":1}},"k":[{"p":false,"q":1},2]}]"#
    );
    let parsed: Value = serde_json::from_slice(&bytes).unwrap();
    assert_eq!(parsed, document(false));
    // Array order does show.
    let swapped = Value::Array(vec![number(2), number(1)]);
    let straight = Value::Array(vec![number(1), number(2)]);
    assert_ne!(canonical_json(&swapped), canonical_json(&straight));
}

#[test]
fn white_space_stands_inside_strings_only() {
    let value = object(vec![
        ("a b", Value::String(" \t\"x\" \\ \r\n".to_owned())),
        ("\\", Value::Array(vec![number(1), Value::Null])),
    ]);
    assert_eq!(
        text_of(canonical_json(&value).unwrap()),
        "{\"\\\\\":[1,null],\"a b\":\" \\t\\\"x\\\" \\\\ \\r\\n\"}"
    );
}
