use singbox_commander::json::{
    bool_value, parse_json, plain_within, put, text_value, texts_value, to_string_pretty, unsigned_value, Json,
    JsonNumber, MAX_DEPTH,
};

#[test]
fn documents_read_back() {
    let text = r#"{"a":[1,-2,true,null,"x\"é",{"b":{}}],"c":18446744073709551615}"#;
    let doc = parse_json(text).unwrap();
    let written = to_string_pretty(&doc).unwrap();
    assert!(written.contains('\n'));
    assert_eq!(parse_json(&written).unwrap(), doc);
    assert_eq!(doc.copy(), doc);
    let plain: serde_json::Value = serde_json::from_str(text).unwrap();
    assert_eq!(written, serde_json::to_string_pretty(&plain).unwrap());
}

#[test]
fn fractions_are_kept() {
    let doc = parse_json("[1.5, 1e300, -0.25]").unwrap();
    let again = doc.copy();
    assert_eq!(doc, again);
    let items = doc.as_array().unwrap();
    assert!(matches!(items[0], Json::Number(JsonNumber::Fraction(_))));
    assert_eq!(items[0].as_u64(), None);
    assert_eq!(items[0].as_i64(), None);
    assert!(to_string_pretty(&doc).unwrap().contains("1.5"));
}

#[test]
fn wrong_documents_say_why() {
    let e = parse_json("{").unwrap_err();
    let expected = serde_json::from_str::<serde_json::Value>("{").unwrap_err().to_string();
    assert_eq!(e, expected);
}

#[test]
fn depth_of_documents() {
    let nested = |n: usize| format!("{}{}", "[".repeat(n), "]".repeat(n));
    assert!(parse_json(&nested(127)).is_ok());
    assert!(parse_json(&nested(128)).is_err());
}

#[test]
fn numbers() {
    let doc = parse_json("[0, 9223372036854775808, -1, -9223372036854775808]").unwrap();
    let items = doc.as_array().unwrap();
    assert_eq!(items[0].as_u64(), Some(0));
    assert_eq!(items[0].as_i64(), Some(0));
    assert_eq!(items[1].as_u64(), Some(9223372036854775808));
    assert_eq!(items[1].as_i64(), None);
    assert_eq!(items[2].as_u64(), None);
    assert_eq!(items[2].as_i64(), Some(-1));
    assert_eq!(items[3].as_i64(), Some(i64::MIN));
    let odd = Json::Number(JsonNumber::Negative(5));
    assert_eq!(odd.as_u64(), Some(5));
    assert_eq!(to_string_pretty(&odd).unwrap(), "5");
}

#[test]
fn the_later_entry_counts() {
    let mut entries: Vec<(String, Json)> = Vec::new();
    put(&mut entries, "k", unsigned_value(1));
    put(&mut entries, "k", text_value("two"));
    assert_eq!(entries, vec![("k".to_string(), text_value("two"))]);
    let mut doc = Json::Object(entries);
    assert_eq!(doc.get_str("k"), Some("two"));
    assert_eq!(to_string_pretty(&doc).unwrap(), "{\n  \"k\": \"two\"\n}");
    if let Some(v) = doc.get_mut("k") {
        *v = bool_value(true);
    }
    assert_eq!(doc.get("k"), Some(&Json::Bool(true)));
    doc.remove("k");
    assert_eq!(doc.get("k"), None);
    assert_eq!(to_string_pretty(&doc).unwrap(), "{}");
    let parsed = parse_json(r#"{"k":1,"k":2}"#).unwrap();
    assert_eq!(parsed.get("k").unwrap().as_u64(), Some(2));
}

#[test]
fn shadowed_entries_are_not_written() {
    let entry = |k: &str, n: u64| (k.to_string(), unsigned_value(n));
    let mut doc = Json::Object(vec![entry("a", 1), entry("b", 2), entry("a", 3), entry("a", 4)]);
    assert_eq!(to_string_pretty(&doc).unwrap(), "{\n  \"a\": 4,\n  \"b\": 2\n}");
    doc.insert("a", unsigned_value(5));
    assert_eq!(to_string_pretty(&doc).unwrap(), "{\n  \"a\": 5,\n  \"b\": 2\n}");
}

#[test]
fn plain_documents() {
    let plain = |text: &str, depth: u64| plain_within(&parse_json(text).unwrap(), depth);
    assert!(plain("[{\"a\":[]}]", 3));
    assert!(!plain("[{\"a\":[]}]", 2));
    assert!(plain("-1", 0));
    assert!(!plain("1.5", MAX_DEPTH));
    assert!(!plain("{\"a\":[0.5]}", MAX_DEPTH));
    let half = parse_json("0.5").unwrap();
    let entries = vec![("a".to_string(), half), ("a".to_string(), unsigned_value(1))];
    assert!(plain_within(&Json::Object(entries), MAX_DEPTH));
}

#[test]
fn what_is_no_object_has_no_keys() {
    let mut list = texts_value(&vec!["a".to_string()]);
    assert_eq!(list.get("a"), None);
    list.insert("a", Json::Null);
    list.remove("a");
    assert_eq!(list, Json::Array(vec![text_value("a")]));
    assert!(list.as_array_mut().is_some());
    assert_eq!(list.get_mut("a"), None);
    assert_eq!(Json::Null.as_str(), None);
}
