//! Exercises the wire-protocol JSON codec on concrete documents.

use federated_auth::json::{bytes_eq, obj_get, parse_json, write_json, JsonValue};

fn obj(members: Vec<(&str, JsonValue)>) -> JsonValue {
    JsonValue::Obj(
        members
            .into_iter()
            .map(|(k, v)| (k.as_bytes().to_vec(), v))
            .collect(),
    )
}

fn s(text: &str) -> JsonValue {
    JsonValue::Str(text.as_bytes().to_vec())
}

#[test]
fn writes_flat_object_exactly() {
    let v = obj(vec![
        ("name", s("mango")),
        ("count", JsonValue::Int(42)),
        ("live", JsonValue::Bool(true)),
        ("gone", JsonValue::Null),
    ]);
    let bytes = write_json(&v);
    assert_eq!(
        bytes.as_slice(),
        br#"{"name":"mango","count":42,"live":true,"gone":null}"#
    );
}

#[test]
fn writes_negative_and_extreme_integers() {
    assert_eq!(write_json(&JsonValue::Int(0)).as_slice(), b"0");
    assert_eq!(write_json(&JsonValue::Int(-7)).as_slice(), b"-7");
    assert_eq!(
        write_json(&JsonValue::Int(i64::MAX)).as_slice(),
        b"9223372036854775807"
    );
    assert_eq!(
        write_json(&JsonValue::Int(i64::MIN)).as_slice(),
        b"-9223372036854775808"
    );
}

#[test]
fn escapes_and_recovers_special_bytes() {
    let raw: Vec<u8> = b"a\"b\\c\nd\re\tf\x01g".to_vec();
    let v = JsonValue::Str(raw.clone());
    let bytes = write_json(&v);
    assert_eq!(bytes.as_slice(), b"\"a\\\"b\\\\c\\nd\\re\\tf\\u0001g\"");
    match parse_json(&bytes) {
        Some(JsonValue::Str(back)) => assert_eq!(back, raw),
        other => panic!("expected a string, got {:?}", other.is_some()),
    }
}

#[test]
fn round_trips_nested_objects() {
    let v = obj(vec![
        ("outer", obj(vec![("inner", JsonValue::Int(-5))])),
        ("flag", JsonValue::Bool(false)),
    ]);
    let bytes = write_json(&v);
    let back = parse_json(&bytes).expect("serialized document must parse");
    assert_eq!(write_json(&back), bytes);
}

#[test]
fn skips_insignificant_whitespace() {
    let back = parse_json(b" { \"a\" : 1 , \"b\" : null } ").expect("must parse");
    let bytes = write_json(&back);
    assert_eq!(bytes.as_slice(), br#"{"a":1,"b":null}"#);
}

#[test]
fn rejects_what_the_protocol_does_not_use() {
    assert!(parse_json(b"[1,2]").is_none());
    assert!(parse_json(b"1.5").is_none());
    assert!(parse_json(b"{\"a\":1,}").is_none());
    assert!(parse_json(b"{\"a\" 1}").is_none());
    assert!(parse_json(b"").is_none());
    assert!(parse_json(b"{\"a\":1} x").is_none());
}

#[test]
fn rejects_integers_outside_i64() {
    assert!(parse_json(b"9223372036854775807").is_some());
    assert!(parse_json(b"9223372036854775808").is_none());
    assert!(parse_json(b"-9223372036854775808").is_some());
    assert!(parse_json(b"-9223372036854775809").is_none());
    assert!(parse_json(b"99999999999999999999999999999999999999").is_none());
}

#[test]
fn looks_up_first_matching_member() {
    let v = parse_json(br#"{"a":1,"b":2,"a":3}"#).expect("must parse");
    let members = match &v {
        JsonValue::Obj(ms) => ms,
        _ => panic!("expected an object"),
    };
    match obj_get(members, b"a") {
        Some(JsonValue::Int(n)) => assert_eq!(*n, 1),
        _ => panic!("expected the first binding of a"),
    }
    assert!(obj_get(members, b"missing").is_none());
}

#[test]
fn compares_byte_slices() {
    assert!(bytes_eq(b"abc", b"abc"));
    assert!(!bytes_eq(b"abc", b"abd"));
    assert!(!bytes_eq(b"abc", b"ab"));
    assert!(bytes_eq(b"", b""));
}
