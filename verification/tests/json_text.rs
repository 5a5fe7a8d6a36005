use pan_registrar::json::{
    array_of_one, as_str, canonical_json, empty_array, get, json_opt_str,
    json_str_value, member, quote_json, JsonValue,
};

fn s(t: &str) -> JsonValue {
    JsonValue::Str(t.to_string())
}

fn obj(members: Vec<(&str, JsonValue)>) -> JsonValue {
    JsonValue::Object(members.into_iter().map(|(k, v)| (k.to_string(), v)).collect())
}

#[test]
fn canonical_json_sorts_keys_at_every_level() {
    let v = obj(vec![
        ("zeta", JsonValue::Number("1".to_string())),
        ("alpha", obj(vec![("b", JsonValue::Bool(true)), ("a", JsonValue::Null)])),
        ("mid", JsonValue::Array(vec![obj(vec![("y", s("2")), ("x", s("1"))]), JsonValue::Bool(false)])),
    ]);
    assert_eq!(
        canonical_json(&v),
        "{\"alpha\":{\"a\":null,\"b\":true},\"mid\":[{\"x\":\"1\",\"y\":\"2\"},false],\"zeta\":1}"
    );
}

#[test]
fn canonical_json_ignores_member_order() {
    let a = obj(vec![("b", s("2")), ("a", s("1")), ("c", s("3"))]);
    let b = obj(vec![("c", s("3")), ("b", s("2")), ("a", s("1"))]);
    assert_eq!(canonical_json(&a), canonical_json(&b));
}

#[test]
fn canonical_json_orders_keys_by_code_point() {
    let v = obj(vec![("é", s("")), ("z", s("")), ("Z", s("")), ("ab", s("")), ("a", s(""))]);
    assert_eq!(canonical_json(&v), "{\"Z\":\"\",\"a\":\"\",\"ab\":\"\",\"z\":\"\",\"é\":\"\"}");
}

#[test]
fn strings_escape_like_serde_json() {
    assert_eq!(quote_json("a\"b\\c"), "\"a\\\"b\\\\c\"");
    assert_eq!(quote_json("\n\t\r\u{8}\u{c}"), "\"\\n\\t\\r\\b\\f\"");
    assert_eq!(quote_json("\u{1}\u{1f}"), "\"\\u0001\\u001f\"");
    assert_eq!(quote_json("é/€"), "\"é/€\"");
    assert_eq!(quote_json("\u{7f}"), "\"\u{7f}\"");
}

#[test]
fn escaping_matches_serde_json_itself() {
    let samples = ["plain", "q\"uote", "back\\slash", "ctl\u{0}\u{1b}", "tab\tnew\nline", "ünï"];
    for t in samples {
        assert_eq!(quote_json(t), serde_json::Value::String(t.to_string()).to_string());
    }
}

#[test]
fn canonical_json_matches_serde_json_on_sorted_maps() {
    let v = obj(vec![("b", s("x\ny")), ("a", JsonValue::Array(vec![JsonValue::Null, JsonValue::Bool(true)]))]);
    let mut m = serde_json::Map::new();
    m.insert(
        "a".to_string(),
        serde_json::Value::Array(vec![serde_json::Value::Null, serde_json::Value::Bool(true)]),
    );
    m.insert("b".to_string(), serde_json::Value::String("x\ny".to_string()));
    let expected = serde_json::Value::Object(m).to_string();
    assert_eq!(canonical_json(&v), expected);
}

#[test]
fn empty_containers() {
    assert_eq!(canonical_json(&JsonValue::Object(vec![])), "{}");
    assert_eq!(canonical_json(&JsonValue::Array(vec![])), "[]");
    assert_eq!(canonical_json(&empty_array()), "[]");
    assert_eq!(canonical_json(&array_of_one(s("x"))), "[\"x\"]");
}

#[test]
fn members_and_lookup() {
    let v = obj(vec![("name", s("scout")), ("n", JsonValue::Number("3".to_string()))]);
    assert_eq!(as_str(get(&v, "name")), Some("scout"));
    assert_eq!(as_str(get(&v, "n")), None);
    assert!(get(&v, "missing").is_none());
    assert!(get(&s("not an object"), "name").is_none());
    let (k, m) = member("key", json_str_value("value"));
    assert_eq!(k, "key");
    assert_eq!(canonical_json(&m), "\"value\"");
    assert_eq!(canonical_json(&json_opt_str(&None)), "null");
    assert_eq!(canonical_json(&json_opt_str(&Some("t".to_string()))), "\"t\"");
}
