use stargrid::error::StargridError;
use stargrid::text::{decimal, join_text, push_decimal};

#[test]
fn error_messages() {
    assert_eq!(StargridError::ParseError("x".into()).message(), "Failed to parse: x");
    assert_eq!(
        StargridError::UnexpectedValue("\"2.0\"".into(), "Null".into()).message(),
        "Expected value \"\"2.0\"\", got \"Null\""
    );
    assert_eq!(StargridError::InvalidFormat("whatever".into()).message(), "Invalid Block format");
    assert_eq!(StargridError::InvalidListenerMessage("m".into()).message(), "Invalid WebSocket message: m");
    assert_eq!(StargridError::IOError("e".into()).message(), "IO Error: e");
    assert_eq!(StargridError::WebSocketError("e".into()).message(), "Tungstenite Error: e");
    assert_eq!(StargridError::JsonError("e".into()).message(), "JSON Error: e");
    assert_eq!(StargridError::Generic("plain".into()).message(), "plain");
    assert_eq!(StargridError::BudgetError("Too many".into()).message(), "Budget exceeded: Too many");
    assert_eq!(StargridError::Aggregate(vec![]).message(), "Multiple errors: ");
    assert_eq!(
        StargridError::Aggregate(vec![StargridError::Generic("a".into()), StargridError::JsonError("b".into())])
            .message(),
        "Multiple errors: a; JSON Error: b"
    );
}

#[test]
fn error_from_string() {
    match StargridError::from("boom".to_string()) {
        StargridError::Generic(m) => assert_eq!(m, "boom"),
        other => panic!("{:?}", other),
    }
    match StargridError::unexpected_value("a".into(), "b".into()) {
        StargridError::UnexpectedValue(a, b) => assert_eq!((a.as_str(), b.as_str()), ("a", "b")),
        other => panic!("{:?}", other),
    }
}

#[test]
fn decimal_texts() {
    assert_eq!(decimal(0), "0");
    assert_eq!(decimal(7), "7");
    assert_eq!(decimal(4000), "4000");
    assert_eq!(decimal(u64::MAX), "18446744073709551615");
    let mut s = "n=".to_string();
    push_decimal(&mut s, 42);
    assert_eq!(s, "n=42");
    assert_eq!(join_text("ab", "cd"), "abcd");
}
