use polybot::binary64::number;
use polybot::json::as_array;
use polybot::json::as_text;
use polybot::json::parse_json;
use polybot::json::read_number;
use polybot::json::read_optional_text;
use polybot::json::read_whole;
use polybot::json::value_f64;
use polybot::json::value_i64;
use polybot::json::JsonValue;

#[test]
fn json_is_read_into_plain_values() {
    let value = parse_json("{\"a\": [1, \"x\", null, true], \"b\": {\"c\": -0.5}, \"a2\": 1, \"a2\": 2}").unwrap();
    let items = as_array(value.get("a")).unwrap();
    assert_eq!(items.len(), 4);
    assert_eq!(value_i64(items.first()), Some(1));
    assert_eq!(as_text(items.get(1)).map(|text| text.as_str()), Some("x"));
    assert!(matches!(items[2], JsonValue::Null));
    assert!(matches!(items[3], JsonValue::Bool(true)));
    assert_eq!(value_f64(value.get("b").unwrap().get("c")), Some(number((-0.5f64).to_bits())));
    assert_eq!(value_i64(value.get("a2")), Some(2));
    assert!(value.get("z").is_none());
    assert!(items[0].get("a").is_none());
    assert!(as_text(value.get("a")).is_none());
    assert!(as_array(value.get("a2")).is_none());
    for text in ["", "{", "[1,]", "nul", "{\"a\":1} x", "1e999"] {
        assert!(parse_json(text).is_none(), "{text}");
    }
}

#[test]
fn numbers_are_taken_from_numbers_and_texts() {
    let value = parse_json("{\"n\": 0.47, \"t\": \"0.53\", \"u\": 18446744073709551615, \"s\": \"-7\", \"e\": 1e2, \"x\": \"y\", \"b\": true}").unwrap();
    assert_eq!(value_f64(value.get("n")), Some(number(0.47f64.to_bits())));
    assert_eq!(value_f64(value.get("t")), Some(number(0.53f64.to_bits())));
    assert_eq!(value_f64(value.get("u")), Some(number(18446744073709551615.0f64.to_bits())));
    assert_eq!(value_f64(value.get("e")), Some(number(100.0f64.to_bits())));
    assert_eq!(value_f64(value.get("x")), None);
    assert_eq!(value_f64(value.get("b")), None);
    assert_eq!(value_f64(None), None);
    assert_eq!(value_i64(value.get("s")), Some(-7));
    assert_eq!(value_i64(value.get("u")), None);
    assert_eq!(value_i64(value.get("e")), None);
    assert_eq!(value_i64(value.get("n")), None);
    assert_eq!(value_i64(value.get("x")), None);
}

#[test]
fn leaves_are_read_leniently() {
    assert_eq!(read_optional_text("null"), None);
    assert_eq!(read_optional_text("\"2026-08-10\"").as_deref(), Some("2026-08-10"));
    assert_eq!(read_optional_text("1786320000").as_deref(), Some("1786320000"));
    assert_eq!(read_optional_text("1.50").as_deref(), Some("1.5"));
    assert_eq!(read_optional_text("true").as_deref(), Some("true"));
    assert_eq!(read_optional_text("[1,2]").as_deref(), Some("[1,2]"));
    assert_eq!(
        read_optional_text(" { \"b\" : [ 1.50, null ], \"a\": 1 } ").as_deref(),
        Some("{\"a\":1,\"b\":[1.5,null]}")
    );
    assert_eq!(read_optional_text("{"), None);
    assert_eq!(read_number("1.5"), Some(number(1.5f64.to_bits())));
    assert_eq!(read_number("\"1.5\""), Some(number(1.5f64.to_bits())));
    assert_eq!(read_number("\"\""), None);
    assert_eq!(read_number("null"), None);
    assert_eq!(read_whole("5"), Some(5));
    assert_eq!(read_whole("5.9"), Some(5));
    assert_eq!(read_whole("1e30"), Some(i64::MAX));
    assert_eq!(read_whole("18446744073709551615"), Some(i64::MAX));
    assert_eq!(read_whole("\"-3\""), Some(-3));
    assert_eq!(read_whole("\"3.5\""), None);
    assert_eq!(read_whole("null"), None);
}
