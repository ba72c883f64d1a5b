use serde_json::Value;
use stargrid::data::validate_jsonrpc;
use stargrid::error::StargridError;
use stargrid::json::{Json, JsonNumber};
use stargrid::listener::{
    check_subscription_ack, msg_subscribe, on_listener_input, parse_subscription_response, parse_text_msg,
    reconnect_delay_secs, ListenerCommand, ListenerInput, ListenerStep, NodeMessage,
};
use stargrid::msg::Broadcast;

fn to_json(v: &Value) -> Json {
    match v {
        Value::Null => Json::Null,
        Value::Bool(b) => Json::Bool(*b),
        Value::Number(n) => match n.as_u64() {
            Some(u) => Json::Number(JsonNumber::PosInt(u)),
            None => match n.as_i64() {
                Some(i) => Json::Number(JsonNumber::NegInt(i)),
                None => Json::Number(JsonNumber::Float(n.to_string())),
            },
        },
        Value::String(s) => Json::String(s.clone()),
        Value::Array(items) => Json::Array(items.iter().map(to_json).collect()),
        Value::Object(map) => Json::Object(map.iter().map(|(k, v)| (k.clone(), to_json(v))).collect()),
    }
}

fn parse(text: &str) -> Json {
    to_json(&serde_json::from_str::<Value>(text).unwrap())
}

fn invalid_message(r: Result<impl std::fmt::Debug, StargridError>) -> String {
    match r {
        Err(StargridError::InvalidListenerMessage(m)) => m,
        other => panic!("{:?}", other),
    }
}

const TX_MSG: &str = r#"{"jsonrpc":"2.0","id":2,"result":{"data":{"type":"tendermint/event/Tx","value":{"TxResult":{"height":"777","tx":"aGVsbG8=","result":{"events":[]}}}}}}"#;

#[test]
fn subscribe_message_shape() {
    let m = msg_subscribe(1, "NewBlock");
    match &m {
        Json::Object(entries) => {
            let keys: Vec<&str> = entries.iter().map(|(k, _)| k.as_str()).collect();
            assert_eq!(keys, vec!["id", "jsonrpc", "method", "params"]);
        }
        other => panic!("{:?}", other),
    }
    assert_eq!(m.get("id").unwrap().as_u64(), Some(1));
    assert!(m.get("method").unwrap().is_text("subscribe"));
    let params = m.get("params").unwrap().as_array().unwrap();
    assert_eq!(params.len(), 1);
    assert!(params[0].is_text("tm.event='NewBlock'"));
    assert!(validate_jsonrpc(&m).is_ok());
    assert!(validate_jsonrpc(&msg_subscribe(2, "Tx")).is_ok());
}

#[test]
fn subscription_responses() {
    assert_eq!(parse_subscription_response(NodeMessage::Text(Ok(parse(r#"{"jsonrpc":"2.0","id":1,"result":{}}"#)))).unwrap(), 1);
    assert_eq!(
        invalid_message(parse_subscription_response(NodeMessage::Ping)),
        "Unexpected non-text subscription response"
    );
    assert_eq!(
        invalid_message(parse_subscription_response(NodeMessage::Text(Ok(parse(r#"{"jsonrpc":"2.0"}"#))))),
        "Missing subscription ID"
    );
    assert_eq!(
        invalid_message(parse_subscription_response(NodeMessage::Text(Ok(parse(r#"{"jsonrpc":"1.0","id":1}"#))))),
        "Invalid JSONRPC version (expected \"2.0\", got \"\"1.0\"\")"
    );
    match parse_subscription_response(NodeMessage::Text(Err(StargridError::JsonError("eof".into())))) {
        Err(StargridError::JsonError(m)) => assert_eq!(m, "eof"),
        other => panic!("{:?}", other),
    }
}

#[test]
fn subscription_acks() {
    assert!(check_subscription_ack(2, NodeMessage::Text(Ok(parse(r#"{"jsonrpc":"2.0","id":2}"#)))).is_ok());
    assert_eq!(
        invalid_message(check_subscription_ack(1, NodeMessage::Text(Ok(parse(r#"{"jsonrpc":"2.0","id":3}"#))))),
        "Invalid subscription ID 3, expected 1"
    );
}

#[test]
fn reconnect_delays_double() {
    assert_eq!(reconnect_delay_secs(0), 1);
    assert_eq!(reconnect_delay_secs(1), 2);
    assert_eq!(reconnect_delay_secs(5), 32);
    assert_eq!(reconnect_delay_secs(63), 1u64 << 63);
}

#[test]
fn text_messages_become_broadcasts() {
    match parse_text_msg(&parse(TX_MSG)) {
        Ok(Broadcast::Tx(tx)) => assert_eq!(tx.height, [777, 0, 0, 0]),
        other => panic!("{:?}", other),
    }
    assert!(matches!(
        parse_text_msg(&parse(r#"{"jsonrpc":"1.0","id":5}"#)),
        Err(StargridError::UnexpectedValue(_, _))
    ));
    assert!(matches!(parse_text_msg(&parse(r#"{"jsonrpc":"2.0","id":1}"#)), Err(StargridError::InvalidFormat(_))));
}

#[test]
fn listener_decisions() {
    assert!(matches!(on_listener_input(ListenerInput::Command(ListenerCommand::Close)), ListenerStep::Stop));
    assert!(matches!(
        on_listener_input(ListenerInput::ReceiveError),
        ListenerStep::Reconnect { close_first: false }
    ));
    assert!(matches!(on_listener_input(ListenerInput::Message(NodeMessage::Ping)), ListenerStep::SendPong));
    assert!(matches!(on_listener_input(ListenerInput::Message(NodeMessage::Pong)), ListenerStep::Skip));
    assert!(matches!(on_listener_input(ListenerInput::Message(NodeMessage::Binary)), ListenerStep::Skip));
    assert!(matches!(
        on_listener_input(ListenerInput::Message(NodeMessage::Close)),
        ListenerStep::Reconnect { close_first: true }
    ));
    assert!(matches!(
        on_listener_input(ListenerInput::Message(NodeMessage::Text(Ok(parse(TX_MSG))))),
        ListenerStep::Emit(Broadcast::Tx(_))
    ));
    assert!(matches!(
        on_listener_input(ListenerInput::Message(NodeMessage::Text(Err(StargridError::JsonError("x".into()))))),
        ListenerStep::Failed(StargridError::JsonError(_))
    ));
    assert!(matches!(
        on_listener_input(ListenerInput::Message(NodeMessage::Text(Ok(parse(r#"{"jsonrpc":"2.0","id":1}"#))))),
        ListenerStep::Failed(StargridError::InvalidFormat(_))
    ));
}
