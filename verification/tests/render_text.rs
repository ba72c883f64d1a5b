use serde_json::Value;
use stargrid::data::validate_jsonrpc;
use stargrid::error::StargridError;
use stargrid::json::{Json, JsonNumber};
use stargrid::listener::{parse_subscription_response, NodeMessage};
use stargrid::render::{json_debug_text, json_text_of};

fn to_json(v: &Value) -> Json {
    match v {
        Value::Null => Json::Null,
        Value::Bool(b) => Json::Bool(*b),
        Value::Number(n) => match n.as_u64() {
            Some(u) => Json::Number(JsonNumber::PosInt(u)),
            None => match n.as_i64() {
                Some(i) => Json::Number(JsonNumber::NegInt(i)),
                None => Json::Number(JsonNumber::Float(n.to_string())),
            },
        },
        Value::String(s) => Json::String(s.clone()),
        Value::Array(items) => Json::Array(items.iter().map(to_json).collect()),
        Value::Object(map) => Json::Object(map.iter().map(|(k, v)| (k.clone(), to_json(v))).collect()),
    }
}

const DOCS: [&str; 12] = [
    "null",
    "true",
    "false",
    "0",
    "18446744073709551615",
    "-9223372036854775808",
    "-12",
    "2.5",
    "1e300",
    r#""plain""#,
    r#"[1, "two", [false, null], {}, []]"#,
    r#"{"b": {"c": [1.0, -0.5]}, "a": "x\"y\\z\n\t\r\u0001\u001f\u007f\u00e9\u2028 \ud83d\ude00"}"#,
];

#[test]
fn debug_text_follows_serde_json() {
    for doc in DOCS {
        let v: Value = serde_json::from_str(doc).unwrap();
        assert_eq!(json_debug_text(&to_json(&v)), format!("{:?}", v), "{}", doc);
    }
}

#[test]
fn json_text_follows_serde_json() {
    for doc in DOCS {
        let v: Value = serde_json::from_str(doc).unwrap();
        assert_eq!(json_text_of(&to_json(&v)), v.to_string(), "{}", doc);
    }
}

#[test]
fn debug_text_examples() {
    assert_eq!(json_debug_text(&Json::Null), "Null");
    assert_eq!(json_debug_text(&Json::Bool(true)), "Bool(true)");
    assert_eq!(json_debug_text(&Json::Number(JsonNumber::NegInt(-7))), "Number(-7)");
    assert_eq!(json_debug_text(&Json::Number(JsonNumber::Float("2.0".to_string()))), "Number(2.0)");
    assert_eq!(json_debug_text(&Json::String("a\"b".to_string())), "String(\"a\\\"b\")");
    assert_eq!(json_debug_text(&Json::Array(vec![])), "Array []");
    assert_eq!(
        json_debug_text(&Json::Object(vec![
            ("k".to_string(), Json::Number(JsonNumber::PosInt(1))),
            ("l".to_string(), Json::Array(vec![Json::Null, Json::Bool(false)])),
        ])),
        "Object {\"k\": Number(1), \"l\": Array [Null, Bool(false)]}"
    );
}

#[test]
fn json_text_examples() {
    assert_eq!(json_text_of(&Json::Null), "null");
    assert_eq!(json_text_of(&Json::Number(JsonNumber::NegInt(i64::MIN))), "-9223372036854775808");
    assert_eq!(json_text_of(&Json::String("1.0".to_string())), "\"1.0\"");
    assert_eq!(json_text_of(&Json::String("\u{8}\u{c}\u{1}/".to_string())), "\"\\b\\f\\u0001/\"");
    assert_eq!(
        json_text_of(&Json::Object(vec![
            ("k".to_string(), Json::Array(vec![Json::Bool(true), Json::Null])),
            ("e".to_string(), Json::Object(vec![])),
        ])),
        "{\"k\":[true,null],\"e\":{}}"
    );
}

#[test]
fn wrong_version_messages_show_the_value() {
    let float_version = to_json(&serde_json::from_str::<Value>(r#"{"jsonrpc":2.0}"#).unwrap());
    match validate_jsonrpc(&float_version) {
        Err(StargridError::UnexpectedValue(expected, got)) => {
            assert_eq!(expected, "\"2.0\"");
            assert_eq!(got, "Number(2.0)");
        }
        other => panic!("{:?}", other),
    }
    let missing = to_json(&serde_json::from_str::<Value>(r#"{"id":1}"#).unwrap());
    match parse_subscription_response(NodeMessage::Text(Ok(missing))) {
        Err(StargridError::InvalidListenerMessage(m)) => {
            assert_eq!(m, "Invalid JSONRPC version (expected \"2.0\", got \"null\")")
        }
        other => panic!("{:?}", other),
    }
}
