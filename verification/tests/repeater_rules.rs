use stargrid::data::{Block, Event, Tx};
use stargrid::error::StargridError;
use stargrid::json::Json;
use stargrid::msg::{Broadcast, EventFilter, RepeaterMessage, RepeaterSubscription, RepeaterTxSubscription};
use stargrid::repeater::{
    handle_message, on_broadcast, on_client_message, on_repeater_command, BroadcastStep, ClientContext,
    ClientMessage, ClientReply, RepeaterCommand, RepeaterStep, MAX_FREE_SUBSCRIPTIONS, MAX_MESSAGE_SIZE,
};

fn tx_sub(id: u64, name: &str) -> RepeaterSubscription {
    RepeaterSubscription::Txs(RepeaterTxSubscription {
        id,
        filters: vec![EventFilter { name: name.to_string(), attributes: vec![] }],
    })
}

fn request(sub: RepeaterSubscription) -> ClientMessage {
    ClientMessage::Text { text: "{}".to_string(), request: Ok(RepeaterMessage::Subscribe(sub)) }
}

fn tx_named(name: &str) -> Tx {
    Tx {
        raw: Json::Null,
        error: None,
        height: [0; 4],
        tx: String::new(),
        txhash: String::new(),
        events: vec![Event { name: name.to_string(), attributes: vec![] }],
    }
}

fn block() -> Block {
    Block { raw: Json::Null, height: [0; 4], hash: String::new(), chain_id: String::new(), time: 0, events: vec![] }
}

fn generic(r: Result<Option<ClientReply>, StargridError>) -> String {
    match r {
        Err(StargridError::Generic(m)) => m,
        other => panic!("{:?}", other),
    }
}

#[test]
fn limits() {
    assert_eq!(MAX_MESSAGE_SIZE, 4000);
    assert_eq!(MAX_FREE_SUBSCRIPTIONS, 20);
}

#[test]
fn control_frames() {
    let mut ctx = ClientContext::new();
    assert_eq!(handle_message(&mut ctx, ClientMessage::Close).unwrap(), Some(ClientReply::Close));
    assert_eq!(handle_message(&mut ctx, ClientMessage::Ping).unwrap(), Some(ClientReply::Pong));
    assert_eq!(
        handle_message(&mut ctx, ClientMessage::Binary).unwrap(),
        Some(ClientReply::Error("Binary messages not supported".to_string()))
    );
    assert!(ctx.subscriptions.is_empty());
}

#[test]
fn block_subscription_is_held_once() {
    let mut ctx = ClientContext::new();
    assert!(!ctx.has_block_subscription());
    assert_eq!(handle_message(&mut ctx, request(RepeaterSubscription::Blocks)).unwrap(), None);
    assert!(ctx.has_block_subscription());
    assert_eq!(handle_message(&mut ctx, request(RepeaterSubscription::Blocks)).unwrap(), None);
    assert_eq!(ctx.subscriptions.len(), 1);
}

#[test]
fn tx_subscription_confirmed_and_unique() {
    let mut ctx = ClientContext::new();
    assert_eq!(handle_message(&mut ctx, request(tx_sub(7, "transfer"))).unwrap(), Some(ClientReply::SubscriptionId(7)));
    assert!(ctx.has_tx_id(7));
    assert!(!ctx.has_tx_id(8));
    assert_eq!(generic(handle_message(&mut ctx, request(tx_sub(7, "message")))), "Subscription ID 7 already in use");
    assert_eq!(ctx.subscriptions.len(), 1);
}

#[test]
fn tx_subscription_needs_filters() {
    let mut ctx = ClientContext::new();
    let empty = RepeaterSubscription::Txs(RepeaterTxSubscription { id: 1, filters: vec![] });
    assert_eq!(generic(handle_message(&mut ctx, request(empty))), "Subscription filters cannot be empty");
    assert!(ctx.subscriptions.is_empty());
}

#[test]
fn message_size_limit() {
    let mut ctx = ClientContext::new();
    let big = ClientMessage::Text {
        text: "x".repeat(4001),
        request: Ok(RepeaterMessage::Subscribe(RepeaterSubscription::Blocks)),
    };
    assert_eq!(generic(handle_message(&mut ctx, big)), "Message too large (>4000 characters)");
    let exact = ClientMessage::Text {
        text: "x".repeat(4000),
        request: Ok(RepeaterMessage::Subscribe(RepeaterSubscription::Blocks)),
    };
    assert!(handle_message(&mut ctx, exact).is_ok());
    // The limit counts bytes: 2000 two-byte characters fit, 2001 do not.
    let wide = ClientMessage::Text { text: "é".repeat(2001), request: Ok(RepeaterMessage::Subscribe(RepeaterSubscription::Blocks)) };
    assert!(handle_message(&mut ctx, wide).is_err());
}

#[test]
fn unreadable_request_is_refused() {
    let mut ctx = ClientContext::new();
    let bad = ClientMessage::Text { text: "nope".into(), request: Err(StargridError::JsonError("expected value".into())) };
    match handle_message(&mut ctx, bad) {
        Err(StargridError::JsonError(m)) => assert_eq!(m, "expected value"),
        other => panic!("{:?}", other),
    }
}

#[test]
fn subscription_budget() {
    let mut ctx = ClientContext::new();
    for id in 0..20 {
        assert!(handle_message(&mut ctx, request(tx_sub(id, "t"))).is_ok());
    }
    match handle_message(&mut ctx, request(tx_sub(99, "t"))) {
        Err(StargridError::BudgetError(m)) => assert_eq!(m, "Too many subscriptions"),
        other => panic!("{:?}", other),
    }
    match handle_message(&mut ctx, request(RepeaterSubscription::Blocks)) {
        Err(StargridError::BudgetError(_)) => {}
        other => panic!("{:?}", other),
    }
    assert_eq!(ctx.subscriptions.len(), 20);
    assert!(ctx.push_subscription(RepeaterSubscription::Blocks).is_err());
}

#[test]
fn errors_are_answered_with_their_text() {
    let mut ctx = ClientContext::new();
    on_client_message(&mut ctx, request(tx_sub(1, "t")));
    assert_eq!(
        on_client_message(&mut ctx, request(tx_sub(1, "t"))),
        Some(ClientReply::Error("Subscription ID 1 already in use".to_string()))
    );
    assert_eq!(on_client_message(&mut ctx, request(RepeaterSubscription::Blocks)), None);
}

#[test]
fn find_tx_subscription_takes_the_first() {
    let mut ctx = ClientContext::new();
    ctx.push_subscription(RepeaterSubscription::Blocks).unwrap();
    ctx.push_subscription(tx_sub(1, "a")).unwrap();
    ctx.push_subscription(tx_sub(2, "b")).unwrap();
    ctx.push_subscription(tx_sub(3, "b")).unwrap();
    match ctx.find_tx_subscription(&tx_named("b")) {
        Some(RepeaterSubscription::Txs(s)) => assert_eq!(s.id, 2),
        other => panic!("{:?}", other),
    }
    assert!(ctx.find_tx_subscription(&tx_named("c")).is_none());
    assert!(ctx.has_tx_subscription(&tx_named("a")));
}

#[test]
fn broadcast_decisions() {
    let mut ctx = ClientContext::new();
    assert_eq!(on_broadcast(&ctx, &Broadcast::Block(block())), BroadcastStep::Skip);
    assert_eq!(on_broadcast(&ctx, &Broadcast::Tx(tx_named("a"))), BroadcastStep::Skip);
    assert_eq!(on_broadcast(&ctx, &Broadcast::Close), BroadcastStep::Close);
    assert_eq!(on_broadcast(&ctx, &Broadcast::Nothing), BroadcastStep::Skip);
    ctx.push_subscription(RepeaterSubscription::Blocks).unwrap();
    ctx.push_subscription(tx_sub(1, "a")).unwrap();
    assert_eq!(on_broadcast(&ctx, &Broadcast::Block(block())), BroadcastStep::SendBlock);
    assert_eq!(on_broadcast(&ctx, &Broadcast::Tx(tx_named("a"))), BroadcastStep::SendTx);
    assert_eq!(on_broadcast(&ctx, &Broadcast::Tx(tx_named("z"))), BroadcastStep::Skip);
}

#[test]
fn repeater_command_decisions() {
    assert!(matches!(on_repeater_command(RepeaterCommand::Close), RepeaterStep::Shutdown));
    assert!(matches!(
        on_repeater_command(RepeaterCommand::Broadcast(Broadcast::Block(block()))),
        RepeaterStep::Forward(Broadcast::Block(_))
    ));
    assert!(matches!(
        on_repeater_command(RepeaterCommand::Broadcast(Broadcast::Tx(tx_named("a")))),
        RepeaterStep::Forward(Broadcast::Tx(_))
    ));
    assert!(matches!(on_repeater_command(RepeaterCommand::Broadcast(Broadcast::Close)), RepeaterStep::Skip));
    assert!(matches!(on_repeater_command(RepeaterCommand::Broadcast(Broadcast::Nothing)), RepeaterStep::Skip));
}
