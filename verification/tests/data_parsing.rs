use serde_json::Value;
use stargrid::data::{
    get_tx_hash, option_u64_debug_text, parse_block, parse_tx, validate_jsonrpc, AttributeValue, Event, SUB_ID_BLOCK,
    SUB_ID_TX,
};
use stargrid::error::StargridError;
use stargrid::json::{Json, JsonNumber};

fn to_json(v: &Value) -> Json {
    match v {
        Value::Null => Json::Null,
        Value::Bool(b) => Json::Bool(*b),
        Value::Number(n) => {
            if let Some(u) = n.as_u64() {
                Json::Number(JsonNumber::PosInt(u))
            } else if let Some(i) = n.as_i64() {
                Json::Number(JsonNumber::NegInt(i))
            } else {
                Json::Number(JsonNumber::Float(n.to_string()))
            }
        }
        Value::String(s) => Json::String(s.clone()),
        Value::Array(items) => Json::Array(items.iter().map(to_json).collect()),
        Value::Object(map) => Json::Object(map.iter().map(|(k, v)| (k.clone(), to_json(v))).collect()),
    }
}

fn to_value(j: &Json) -> Value {
    match j {
        Json::Null => Value::Null,
        Json::Bool(b) => Value::Bool(*b),
        Json::Number(JsonNumber::PosInt(u)) => Value::from(*u),
        Json::Number(JsonNumber::NegInt(i)) => Value::from(*i),
        Json::Number(JsonNumber::Float(t)) => serde_json::from_str::<Value>(t).unwrap(),
        Json::String(s) => Value::String(s.clone()),
        Json::Array(items) => Value::Array(items.iter().map(to_value).collect()),
        Json::Object(entries) => {
            let mut map = serde_json::Map::new();
            for (k, v) in entries {
                map.insert(k.clone(), to_value(v));
            }
            Value::Object(map)
        }
    }
}

fn parse(text: &str) -> Json {
    to_json(&serde_json::from_str::<Value>(text).unwrap())
}

fn attr<'a>(event: &'a Event, key: &str) -> Option<&'a AttributeValue> {
    event.attributes.iter().find(|(k, _)| k == key).map(|(_, v)| v)
}

const BLOCK_MSG: &str = r#"{"jsonrpc":"2.0","id":1,"result":{"query":"tm.event='NewBlock'","data":{"type":"tendermint/event/NewBlock","value":{"block":{"header":{"chain_id":"phoenix-1","height":"12345","time":"2024-01-01T00:00:00Z","app_hash":"ABCDEF"}},"result_begin_block":{"events":[{"type":"coin_spent","attributes":[{"key":"spender","value":"terra1abc","index":true},{"key":"amount","value":"100uluna"}]}]},"result_end_block":{"events":[{"type":"commission","attributes":[{"key":"amount","value":"1"},{"key":"amount","value":"2","index":true}]}]}}}}}"#;

const TX_MSG: &str = r#"{"jsonrpc":"2.0","id":2,"result":{"data":{"type":"tendermint/event/Tx","value":{"TxResult":{"height":"777","tx":"aGVsbG8=","result":{"code":5,"codespace":"sdk","log":"out of gas","events":[{"type":"transfer","attributes":[{"key":"recipient","value":"terra1xyz"}]}]}}}}}}"#;

fn block_msg_with(path: &[&str], new: Value) -> Json {
    let mut v: Value = serde_json::from_str(BLOCK_MSG).unwrap();
    let mut cur = &mut v;
    for k in &path[..path.len() - 1] {
        cur = cur.get_mut(*k).unwrap();
    }
    cur[path[path.len() - 1]] = new;
    to_json(&v)
}

fn tx_msg_with(path: &[&str], new: Value) -> Json {
    let mut v: Value = serde_json::from_str(TX_MSG).unwrap();
    let mut cur = &mut v;
    for k in &path[..path.len() - 1] {
        cur = cur.get_mut(*k).unwrap();
    }
    cur[path[path.len() - 1]] = new;
    to_json(&v)
}

fn invalid_format(r: Result<impl std::fmt::Debug, StargridError>) -> String {
    match r {
        Err(StargridError::InvalidFormat(m)) => m,
        other => panic!("expected an invalid format error, got {:?}", other),
    }
}

fn parse_failure(r: Result<impl std::fmt::Debug, StargridError>) -> String {
    match r {
        Err(StargridError::ParseError(m)) => m,
        other => panic!("expected a parse error, got {:?}", other),
    }
}

#[test]
fn subscription_ids() {
    assert_eq!(SUB_ID_BLOCK, 1);
    assert_eq!(SUB_ID_TX, 2);
}

#[test]
fn json_get_and_path() {
    let j = parse(r#"{"a":{"b":[1,2]},"s":"x","a2":null}"#);
    assert!(j.get("missing").is_none());
    assert!(j.get("s").unwrap().is_text("x"));
    assert!(!j.get("s").unwrap().is_text("y"));
    assert_eq!(to_value(&j.at_path(&["a", "b"])), serde_json::from_str::<Value>("[1,2]").unwrap());
    assert!(j.at_path(&["a", "zz", "b"]).is_null());
    assert!(j.at_path(&["s", "b"]).is_null());
    assert!(Json::String("x".into()).get("x").is_none());
    assert_eq!(j.get("a").unwrap().field_value("b").as_array().unwrap().len(), 2);
    assert_eq!(Json::Number(JsonNumber::PosInt(7)).as_u64(), Some(7));
    assert_eq!(Json::Number(JsonNumber::NegInt(-7)).as_u64(), None);
    assert_eq!(Json::Bool(true).as_bool(), Some(true));
    assert_eq!(Json::Null.as_bool(), None);
}

#[test]
fn json_first_member_wins() {
    let j = Json::Object(vec![
        ("k".to_string(), Json::String("first".into())),
        ("k".to_string(), Json::String("second".into())),
    ]);
    assert!(j.get("k").unwrap().is_text("first"));
}

#[test]
fn json_deep_clone_is_equal() {
    let j = parse(BLOCK_MSG);
    assert_eq!(to_value(&j.deep_clone()), to_value(&j));
}

#[test]
fn validate_jsonrpc_accepts_2_0() {
    assert!(validate_jsonrpc(&parse(r#"{"jsonrpc":"2.0"}"#)).is_ok());
}

#[test]
fn validate_jsonrpc_rejects_other_versions() {
    match validate_jsonrpc(&parse(r#"{"jsonrpc":"1.0"}"#)) {
        Err(StargridError::UnexpectedValue(expected, got)) => {
            assert_eq!(expected, "\"2.0\"");
            assert_eq!(got, "String(\"1.0\")");
        }
        other => panic!("{:?}", other),
    }
    match validate_jsonrpc(&parse(r#"{}"#)) {
        Err(StargridError::UnexpectedValue(_, got)) => assert_eq!(got, "Null"),
        other => panic!("{:?}", other),
    }
}

#[test]
fn parse_block_reads_a_block() {
    let block = parse_block(&parse(BLOCK_MSG)).unwrap();
    assert_eq!(block.height, [12345, 0, 0, 0]);
    assert_eq!(block.hash, "ABCDEF");
    assert_eq!(block.chain_id, "phoenix-1");
    assert_eq!(block.time, 1_704_067_200_000_000_000);
    let payload = serde_json::from_str::<Value>(BLOCK_MSG).unwrap()["result"]["data"].clone();
    assert_eq!(to_value(&block.raw), payload);
    assert_eq!(block.events.len(), 2);
    assert_eq!(block.events[0].name, "coin_spent");
    assert_eq!(block.events[1].name, "commission");
    let spender = attr(&block.events[0], "spender").unwrap();
    assert!(spender.indexed);
    assert!(spender.value.is_text("terra1abc"));
    assert!(!attr(&block.events[0], "amount").unwrap().indexed);
}

#[test]
fn parse_block_last_attribute_wins() {
    let block = parse_block(&parse(BLOCK_MSG)).unwrap();
    let commission = &block.events[1];
    assert_eq!(commission.attributes.len(), 1);
    let amount = attr(commission, "amount").unwrap();
    assert!(amount.value.is_text("2"));
    assert!(amount.indexed);
    assert!(commission.index("amount").value.is_text("2"));
}

#[test]
fn parse_block_rejects_wrong_id() {
    match parse_block(&parse(TX_MSG)) {
        Err(StargridError::UnexpectedValue(expected, got)) => {
            assert_eq!(expected, "Some(1)");
            assert_eq!(got, "Number(2)");
        }
        other => panic!("{:?}", other),
    }
}

#[test]
fn parse_block_format_errors() {
    assert_eq!(invalid_format(parse_block(&block_msg_with(&["result", "data"], Value::Null))), "Expected .result.data");
    assert_eq!(
        invalid_format(parse_block(&block_msg_with(&["result", "data", "type"], Value::from("other")))),
        "Expected NewBlock event"
    );
    assert_eq!(
        invalid_format(parse_block(&block_msg_with(&["result", "data", "value", "result_begin_block"], Value::Null))),
        "Missing result_begin_block"
    );
    assert_eq!(
        invalid_format(parse_block(&block_msg_with(&["result", "data", "value", "result_end_block"], Value::Null))),
        "Missing result_end_block"
    );
    assert_eq!(
        invalid_format(parse_block(&block_msg_with(
            &["result", "data", "value", "result_begin_block", "events"],
            Value::from(3)
        ))),
        "Invalid events"
    );
    assert_eq!(
        invalid_format(parse_block(&block_msg_with(
            &["result", "data", "value", "result_end_block", "events"],
            serde_json::from_str(r#"[{"type":1,"attributes":[]}]"#).unwrap()
        ))),
        "Invalid event format"
    );
    assert_eq!(
        invalid_format(parse_block(&block_msg_with(
            &["result", "data", "value", "result_end_block", "events"],
            serde_json::from_str(r#"[{"type":"t","attributes":[{"key":5,"value":"v"}]}]"#).unwrap()
        ))),
        "Invalid attribute key"
    );
    assert_eq!(
        invalid_format(parse_block(&block_msg_with(&["result", "data", "value", "block", "header", "height"], Value::Null))),
        "Missing block height"
    );
    assert_eq!(
        invalid_format(parse_block(&block_msg_with(
            &["result", "data", "value", "block", "header", "height"],
            Value::from(12)
        ))),
        "Invalid block height"
    );
    assert_eq!(
        invalid_format(parse_block(&block_msg_with(&["result", "data", "value", "block", "header", "app_hash"], Value::Null))),
        "Missing block hash"
    );
    assert_eq!(
        invalid_format(parse_block(&block_msg_with(
            &["result", "data", "value", "block", "header", "chain_id"],
            Value::from(true)
        ))),
        "Invalid chain ID"
    );
    assert_eq!(
        invalid_format(parse_block(&block_msg_with(
            &["result", "data", "value", "block", "header", "time"],
            Value::from(0)
        ))),
        "Invalid block timestamp"
    );
}

#[test]
fn parse_block_parse_errors() {
    assert_eq!(
        parse_failure(parse_block(&block_msg_with(
            &["result", "data", "value", "block", "header", "height"],
            Value::from("12x")
        ))),
        "Failed to parse block height"
    );
    assert_eq!(
        parse_failure(parse_block(&block_msg_with(
            &["result", "data", "value", "block", "header", "time"],
            Value::from("yesterday")
        ))),
        "Failed to parse block timestamp"
    );
}

#[test]
fn parse_block_height_errors_come_first() {
    // Both the height and the hash are bad: the height is reported.
    let mut v: Value = serde_json::from_str(BLOCK_MSG).unwrap();
    v["result"]["data"]["value"]["block"]["header"]["height"] = Value::from("x");
    v["result"]["data"]["value"]["block"]["header"]["app_hash"] = Value::Null;
    assert_eq!(parse_failure(parse_block(&to_json(&v))), "Failed to parse block height");
}

#[test]
fn parse_tx_reads_a_transaction() {
    let tx = parse_tx(&parse(TX_MSG)).unwrap();
    assert_eq!(tx.tx, "aGVsbG8=");
    assert_eq!(tx.txhash, "2CF24DBA5FB0A30E26E83B2AC5B9E29E1B161E5C1FA7425E73043362938B9824");
    assert_eq!(tx.height, [777, 0, 0, 0]);
    let error = tx.error.as_ref().unwrap();
    assert_eq!(error.code, 5);
    assert_eq!(error.codespace, "sdk");
    assert_eq!(error.message, "out of gas");
    assert_eq!(tx.events.len(), 1);
    assert_eq!(tx.events[0].name, "transfer");
    let payload = serde_json::from_str::<Value>(TX_MSG).unwrap()["result"]["data"]["value"]["TxResult"].clone();
    assert_eq!(to_value(&tx.raw), payload);
}

#[test]
fn parse_tx_without_error_code() {
    let tx = parse_tx(&tx_msg_with(&["result", "data", "value", "TxResult", "result", "code"], Value::Null)).unwrap();
    assert!(tx.error.is_none());
}

#[test]
fn parse_tx_errors() {
    match parse_tx(&parse(BLOCK_MSG)) {
        Err(StargridError::UnexpectedValue(expected, got)) => {
            assert_eq!(expected, "Some(2)");
            assert_eq!(got, "Some(1)");
        }
        other => panic!("{:?}", other),
    }
    match parse_tx(&tx_msg_with(&["id"], Value::from("2"))) {
        Err(StargridError::UnexpectedValue(_, got)) => assert_eq!(got, "None"),
        other => panic!("{:?}", other),
    }
    assert_eq!(
        invalid_format(parse_tx(&tx_msg_with(&["result", "data", "type"], Value::from("tendermint/event/NewBlock")))),
        "Expected Tx event"
    );
    assert_eq!(
        invalid_format(parse_tx(&tx_msg_with(&["result", "data", "value", "TxResult"], Value::Null))),
        "Expected .result.data.value.TxResult"
    );
    assert_eq!(
        invalid_format(parse_tx(&tx_msg_with(&["result", "data", "value", "TxResult", "tx"], Value::Null))),
        "Missing tx bytes"
    );
    assert_eq!(
        parse_failure(parse_tx(&tx_msg_with(&["result", "data", "value", "TxResult", "tx"], Value::from("!!!")))),
        "Failed to decode tx bytes"
    );
    assert_eq!(
        invalid_format(parse_tx(&tx_msg_with(&["result", "data", "value", "TxResult", "result", "events"], Value::Null))),
        "Missing events"
    );
    assert_eq!(
        invalid_format(parse_tx(&tx_msg_with(&["result", "data", "value", "TxResult", "result", "code"], Value::from(-1)))),
        "Invalid tx error code"
    );
    assert_eq!(
        invalid_format(parse_tx(&tx_msg_with(&["result", "data", "value", "TxResult", "result", "codespace"], Value::Null))),
        "Invalid tx error codespace"
    );
    assert_eq!(
        invalid_format(parse_tx(&tx_msg_with(&["result", "data", "value", "TxResult", "result", "log"], Value::from(1)))),
        "Invalid tx error message"
    );
    assert_eq!(
        invalid_format(parse_tx(&tx_msg_with(&["result", "data", "value", "TxResult", "height"], Value::from(777)))),
        "Invalid tx height"
    );
    assert_eq!(
        parse_failure(parse_tx(&tx_msg_with(&["result", "data", "value", "TxResult", "height"], Value::from("7a7")))),
        "Failed to parse tx height: a character is not in the range 0-9"
    );
    let huge = "1".repeat(80);
    assert_eq!(
        parse_failure(parse_tx(&tx_msg_with(&["result", "data", "value", "TxResult", "height"], Value::from(huge)))),
        "Failed to parse tx height: the number is too large for the type"
    );
}

#[test]
fn tx_hash_of_hello() {
    assert_eq!(
        get_tx_hash("aGVsbG8=").unwrap(),
        "2CF24DBA5FB0A30E26E83B2AC5B9E29E1B161E5C1FA7425E73043362938B9824"
    );
    assert!(get_tx_hash("not base64").is_err());
}

fn tx_height(text: &str) -> Result<[u64; 4], String> {
    match parse_tx(&tx_msg_with(&["result", "data", "value", "TxResult", "height"], Value::from(text))) {
        Ok(tx) => Ok(tx.height),
        Err(StargridError::ParseError(m)) => Err(m),
        Err(other) => panic!("{:?}", other),
    }
}

fn block_time(text: &str) -> Option<i128> {
    match parse_block(&block_msg_with(&["result", "data", "value", "block", "header", "time"], Value::from(text))) {
        Ok(block) => Some(block.time),
        Err(StargridError::ParseError(_)) => None,
        Err(other) => panic!("{:?}", other),
    }
}

#[test]
fn heights_are_256_bit_decimals() {
    assert_eq!(tx_height("").unwrap(), [0, 0, 0, 0]);
    assert_eq!(tx_height("18446744073709551616").unwrap(), [0, 1, 0, 0]);
    assert_eq!(tx_height("340282366920938463463374607431768211456").unwrap(), [0, 0, 1, 0]);
    assert_eq!(
        tx_height("115792089237316195423570985008687907853269984665640564039457584007913129639935").unwrap(),
        [u64::MAX; 4]
    );
    assert_eq!(
        tx_height("115792089237316195423570985008687907853269984665640564039457584007913129639936").unwrap_err(),
        "Failed to parse tx height: the number is too large for the type"
    );
    assert_eq!(tx_height("-1").unwrap_err(), "Failed to parse tx height: a character is not in the range 0-9");
    assert_eq!(tx_height("1é").unwrap_err(), "Failed to parse tx height: a character is not in the range 0-9");
}

#[test]
fn block_times_in_nanoseconds() {
    assert_eq!(block_time("1970-01-01T00:00:01Z"), Some(1_000_000_000));
    assert_eq!(block_time("2024-01-01T00:00:00.5Z"), Some(1_704_067_200_500_000_000));
    assert_eq!(block_time("1969-12-31T23:59:59Z"), Some(-1_000_000_000));
    assert_eq!(block_time("soon"), None);
}

#[test]
fn tx_hash_base64_and_digest() {
    // Unpadded base64 is refused.
    assert!(matches!(get_tx_hash("aGVsbG8"), Err(StargridError::ParseError(_))));
    // The empty text decodes to no bytes.
    assert_eq!(get_tx_hash("").unwrap(), "E3B0C44298FC1C149AFBF4C8996FB92427AE41E4649B934CA495991B7852B855");
}

#[test]
fn debug_texts() {
    match validate_jsonrpc(&parse(r#"{"jsonrpc":["2.0"]}"#)) {
        Err(StargridError::UnexpectedValue(_, got)) => assert_eq!(got, "Array [String(\"2.0\")]"),
        other => panic!("{:?}", other),
    }
    assert_eq!(option_u64_debug_text(Some(12)), "Some(12)");
    assert_eq!(option_u64_debug_text(None), "None");
}

#[test]
fn ascii_uppercase_turns_letters_only() {
    assert_eq!(stargrid::data::ascii_uppercase("09af-xyz_Q"), "09AF-XYZ_Q");
    assert_eq!(stargrid::data::ascii_uppercase(""), "");
    assert_eq!(stargrid::data::ascii_uppercase("é"), "é");
}
