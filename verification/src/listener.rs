use vstd::prelude::*;

use crate::data::{
    SUB_ID_BLOCK,
    SUB_ID_TX,
    outcome,
    parse_block,
    parse_tx,
    spec_parse_block,
    spec_parse_tx,
    spec_validate_jsonrpc,
    validate_jsonrpc,
};
use crate::error::{ErrorView, StargridError};
use crate::json::{Json, JsonNumber, JsonValue, NumberView, lemma_member_first};
use crate::msg::Broadcast;
use crate::render::{json_text, json_text_of};
use crate::text::{decimal_text, push_decimal};

verus! {

/// What the listener is told to do.
#[derive(Debug)]
pub enum ListenerCommand {
    Close,
}

/// What the listener reports.
#[derive(Debug)]
pub enum ListenerEvent {
    Initial,
    Connect,
    Reconnect,
    Broadcast(Broadcast),
    Disconnect,
    Close,
}

/// A frame that the node sent, with a text frame read as JSON (or the error
/// reading it gave).
#[derive(Debug)]
pub enum NodeMessage {
    Text(Result<Json, StargridError>),
    Binary,
    Ping,
    Pong,
    Close,
    /// A raw frame, which the node does not send.
    Frame,
}

/// Whether a message can be read: it is no JSON-RPC 2.0 message, or its id is
/// that of blocks or of transactions.
pub open spec fn readable_text(msg: JsonValue) -> bool {
    !msg.field("jsonrpc"@).is_text("2.0"@) || msg.field("id"@).as_u64() == Some(SUB_ID_BLOCK)
        || msg.field("id"@).as_u64() == Some(SUB_ID_TX)
}

/// Reads a notification of the node: a new block under id 1, a transaction under id 2.
pub fn parse_text_msg(msg: &Json) -> (r: Result<Broadcast, StargridError>)
    requires
        readable_text(msg@),
    ensures
        spec_validate_jsonrpc(msg@) is Err ==> r is Err && spec_validate_jsonrpc(msg@) == Err::<
            (),
            ErrorView,
        >(r->Err_0@),
        spec_validate_jsonrpc(msg@) is Ok && msg@.field("id"@).as_u64() == Some(SUB_ID_BLOCK) ==> (
        match r {
            Ok(Broadcast::Block(b)) => spec_parse_block(msg@) == Ok::<_, ErrorView>(b@),
            Ok(_) => false,
            Err(e) => spec_parse_block(msg@) == Err::<crate::data::BlockView, _>(e@),
        }),
        spec_validate_jsonrpc(msg@) is Ok && msg@.field("id"@).as_u64() == Some(SUB_ID_TX) ==> (
        match r {
            Ok(Broadcast::Tx(t)) => spec_parse_tx(msg@) == Ok::<_, ErrorView>(t@),
            Ok(_) => false,
            Err(e) => spec_parse_tx(msg@) == Err::<crate::data::TxView, _>(e@),
        }),
{
    if let Err(e) = validate_jsonrpc(msg) {
        return Err(e);
    }
    let id = match msg.get("id") {
        Some(v) => v.as_u64(),
        None => None,
    };
    if id == Some(SUB_ID_BLOCK) {
        match parse_block(msg) {
            Ok(b) => Ok(Broadcast::Block(b)),
            Err(e) => Err(e),
        }
    } else {
        match parse_tx(msg) {
            Ok(t) => Ok(Broadcast::Tx(t)),
            Err(e) => Err(e),
        }
    }
}

pub enum NodeMessageView {
    Text(Result<JsonValue, ErrorView>),
    Binary,
    Ping,
    Pong,
    Close,
    Frame,
}

impl View for NodeMessage {
    type V = NodeMessageView;

    open spec fn view(&self) -> NodeMessageView {
        match self {
            NodeMessage::Text(Ok(j)) => NodeMessageView::Text(Ok(j@)),
            NodeMessage::Text(Err(e)) => NodeMessageView::Text(Err(e@)),
            NodeMessage::Binary => NodeMessageView::Binary,
            NodeMessage::Ping => NodeMessageView::Ping,
            NodeMessage::Pong => NodeMessageView::Pong,
            NodeMessage::Close => NodeMessageView::Close,
            NodeMessage::Frame => NodeMessageView::Frame,
        }
    }
}

/// The request to the node to subscribe, under `id`, to the events of type `typ`.
pub open spec fn subscribe_request(id: u64, typ: Seq<char>) -> JsonValue {
    JsonValue::Object(
        seq![
            ("id"@, JsonValue::Number(NumberView::PosInt(id))),
            ("jsonrpc"@, JsonValue::Str("2.0"@)),
            ("method"@, JsonValue::Str("subscribe"@)),
            ("params"@, JsonValue::Array(seq![JsonValue::Str("tm.event='"@ + typ + "'"@)])),
        ],
    )
}

/// The JSON-RPC request that subscribes, under `id`, to the node's events of type `typ`.
pub fn msg_subscribe(id: u64, typ: &str) -> (r: Json)
    ensures
        r@ == subscribe_request(id, typ@),
{
    let mut query = "tm.event='".to_owned();
    query.append(typ);
    query.append("'");
    let ghost q = query@;
    assert(q =~= "tm.event='"@ + typ@ + "'"@);
    let item = Json::String(query);
    assert(item@ == JsonValue::Str(q));
    let mut params_items: Vec<Json> = Vec::new();
    params_items.push(item);
    let params = Json::Array(params_items);
    assert(params@->Array_0[0] == JsonValue::Str(q));
    assert(params@->Array_0 =~= seq![JsonValue::Str(q)]);
    let mut entries: Vec<(String, Json)> = Vec::new();
    entries.push(("id".to_owned(), Json::Number(JsonNumber::PosInt(id))));
    entries.push(("jsonrpc".to_owned(), Json::String("2.0".to_owned())));
    entries.push(("method".to_owned(), Json::String("subscribe".to_owned())));
    entries.push(("params".to_owned(), params));
    let ghost ev = entries@;
    let r = Json::Object(entries);
    assert(r@->Object_0[0] == (ev[0].0@, ev[0].1@));
    assert(r@->Object_0[1] == (ev[1].0@, ev[1].1@));
    assert(r@->Object_0[2] == (ev[2].0@, ev[2].1@));
    assert(r@->Object_0[3] == (ev[3].0@, ev[3].1@));
    assert(r@->Object_0 =~= subscribe_request(id, typ@)->Object_0);
    r
}

/// What the node's answer to a subscription request gives: the id it confirms.
pub open spec fn spec_subscription_response(msg: NodeMessageView) -> Result<u64, ErrorView> {
    match msg {
        NodeMessageView::Text(Ok(response)) => if !response.field("jsonrpc"@).is_text("2.0"@) {
            Err(
                ErrorView::InvalidListenerMessage(
                    "Invalid JSONRPC version (expected \"2.0\", got \""@ + json_text(
                        response.field("jsonrpc"@),
                    ) + "\")"@,
                ),
            )
        } else {
            match response.field("id"@).as_u64() {
                Some(id) => Ok(id),
                None => Err(ErrorView::InvalidListenerMessage("Missing subscription ID"@)),
            }
        },
        NodeMessageView::Text(Err(e)) => Err(e),
        _ => Err(
            ErrorView::InvalidListenerMessage("Unexpected non-text subscription response"@),
        ),
    }
}

/// Reads the node's answer to a subscription request: the id it confirms.
pub fn parse_subscription_response(msg: NodeMessage) -> (r: Result<u64, StargridError>)
    ensures
        outcome(r) == spec_subscription_response(msg@),
{
    match msg {
        NodeMessage::Text(Ok(response)) => {
            let ok = match response.get("jsonrpc") {
                Some(v) => v.is_text("2.0"),
                None => false,
            };
            if !ok {
                let got = response.field_value("jsonrpc");
                let mut m = "Invalid JSONRPC version (expected \"2.0\", got \"".to_owned();
                let shown = json_text_of(&got);
                m.append(shown.as_str());
                m.append("\")");
                return Err(StargridError::InvalidListenerMessage(m));
            }
            let id = match response.get("id") {
                Some(v) => v.as_u64(),
                None => None,
            };
            match id {
                Some(id) => Ok(id),
                None => Err(
                    StargridError::InvalidListenerMessage("Missing subscription ID".to_owned()),
                ),
            }
        },
        NodeMessage::Text(Err(e)) => Err(e),
        _ => Err(
            StargridError::InvalidListenerMessage(
                "Unexpected non-text subscription response".to_owned(),
            ),
        ),
    }
}

pub open spec fn wrong_id_text(got: u64, expected: u64) -> Seq<char> {
    "Invalid subscription ID "@ + decimal_text(got as nat) + ", expected "@ + decimal_text(
        expected as nat,
    )
}

/// What the node's answer to the subscription request under `expected` gives.
pub open spec fn spec_subscription_ack(expected: u64, msg: NodeMessageView) -> Result<(), ErrorView> {
    match spec_subscription_response(msg) {
        Err(e) => Err(e),
        Ok(id) => if id == expected {
            Ok(())
        } else {
            Err(ErrorView::InvalidListenerMessage(wrong_id_text(id, expected)))
        },
    }
}

/// Checks that the node confirmed the subscription under the id it was requested with.
pub fn check_subscription_ack(expected: u64, msg: NodeMessage) -> (r: Result<(), StargridError>)
    ensures
        outcome(r) == spec_subscription_ack(expected, msg@),
{
    let resid = match parse_subscription_response(msg) {
        Ok(id) => id,
        Err(e) => return Err(e),
    };
    if resid != expected {
        let mut m = "Invalid subscription ID ".to_owned();
        push_decimal(&mut m, resid);
        m.append(", expected ");
        push_decimal(&mut m, expected);
        return Err(StargridError::InvalidListenerMessage(m));
    }
    Ok(())
}

/// Two to the power `n`.
pub open spec fn pow2(n: nat) -> nat
    decreases n,
{
    if n == 0 {
        1
    } else {
        2 * pow2((n - 1) as nat)
    }
}

pub proof fn lemma_pow2_monotone(a: nat, b: nat)
    requires
        a <= b,
    ensures
        pow2(a) <= pow2(b),
    decreases b,
{
    if a < b {
        lemma_pow2_monotone(a, (b - 1) as nat);
    }
}

/// The seconds to wait before the next attempt to connect, after `attempt`
/// failed attempts: 2 to the power `attempt`.
pub fn reconnect_delay_secs(attempt: u32) -> (r: u64)
    requires
        attempt < 64,
    ensures
        r == pow2(attempt as nat),
{
    let mut r: u64 = 1;
    let mut i: u32 = 0;
    assert(pow2(62) == 0x4000_0000_0000_0000) by {
        reveal_with_fuel(pow2, 63);
    }
    while i < attempt
        invariant
            i <= attempt < 64,
            r == pow2(i as nat),
            pow2(62) == 0x4000_0000_0000_0000,
        decreases attempt - i,
    {
        proof {
            lemma_pow2_monotone(i as nat, 62);
        }
        r = r * 2;
        i = i + 1;
    }
    r
}

/// What the listener receives: a command, a frame from the node, or a failure to
/// receive one.
#[derive(Debug)]
pub enum ListenerInput {
    Command(ListenerCommand),
    Message(NodeMessage),
    ReceiveError,
}

/// What the listener does next.
#[derive(Debug)]
pub enum ListenerStep {
    /// Report `Close` and stop.
    Stop,
    /// Answer the node's ping.
    SendPong,
    /// Nothing to do.
    Skip,
    /// Report `Disconnect`, connect anew and report `Reconnect`; close the old
    /// connection first where `close_first` holds (the node closed it).
    Reconnect { close_first: bool },
    /// Report what the node announced.
    Emit(Broadcast),
    /// A notification could not be read; report the error.
    Failed(StargridError),
}

/// Which inputs the listener can take: no raw frames, and no JSON-RPC 2.0
/// notification under an id other than those of blocks and transactions.
pub open spec fn listener_input_handled(input: ListenerInput) -> bool {
    match input {
        ListenerInput::Message(NodeMessage::Frame) => false,
        ListenerInput::Message(NodeMessage::Text(Ok(j))) => readable_text(j@),
        _ => true,
    }
}

/// Decides the listener's next step on an input: a close command stops it, a
/// ping is answered, a close from the node (closed on this side too) or a failure
/// to receive leads to a new connection, and a text frame is read as a
/// notification and reported.
pub fn on_listener_input(input: ListenerInput) -> (r: ListenerStep)
    requires
        listener_input_handled(input),
    ensures
        match input {
            ListenerInput::Command(ListenerCommand::Close) => r is Stop,
            ListenerInput::ReceiveError => r == (ListenerStep::Reconnect { close_first: false }),
            ListenerInput::Message(NodeMessage::Ping) => r is SendPong,
            ListenerInput::Message(NodeMessage::Pong) => r is Skip,
            ListenerInput::Message(NodeMessage::Binary) => r is Skip,
            ListenerInput::Message(NodeMessage::Close) => r == (ListenerStep::Reconnect {
                close_first: true,
            }),
            ListenerInput::Message(NodeMessage::Text(Err(e))) => r matches ListenerStep::Failed(x)
                && x@ == e@,
            ListenerInput::Message(NodeMessage::Text(Ok(j))) => match r {
                ListenerStep::Emit(Broadcast::Block(b)) => spec_validate_jsonrpc(j@) is Ok
                    && j@.field("id"@).as_u64() == Some(SUB_ID_BLOCK) && spec_parse_block(j@)
                    == Ok::<_, ErrorView>(b@),
                ListenerStep::Emit(Broadcast::Tx(t)) => spec_validate_jsonrpc(j@) is Ok
                    && j@.field("id"@).as_u64() == Some(SUB_ID_TX) && spec_parse_tx(j@) == Ok::<
                    _,
                    ErrorView,
                >(t@),
                ListenerStep::Failed(e) => if spec_validate_jsonrpc(j@) is Err {
                    spec_validate_jsonrpc(j@) == Err::<(), ErrorView>(e@)
                } else if j@.field("id"@).as_u64() == Some(SUB_ID_BLOCK) {
                    spec_parse_block(j@) == Err::<crate::data::BlockView, _>(e@)
                } else {
                    spec_parse_tx(j@) == Err::<crate::data::TxView, _>(e@)
                },
                _ => false,
            },
            ListenerInput::Message(NodeMessage::Frame) => false,
        },
{
    match input {
        ListenerInput::Command(ListenerCommand::Close) => ListenerStep::Stop,
        ListenerInput::ReceiveError => ListenerStep::Reconnect { close_first: false },
        ListenerInput::Message(msg) => match msg {
            NodeMessage::Ping => ListenerStep::SendPong,
            NodeMessage::Pong => ListenerStep::Skip,
            NodeMessage::Binary => ListenerStep::Skip,
            NodeMessage::Close => ListenerStep::Reconnect { close_first: true },
            NodeMessage::Text(Err(e)) => ListenerStep::Failed(e),
            NodeMessage::Text(Ok(j)) => match parse_text_msg(&j) {
                Ok(b) => ListenerStep::Emit(b),
                Err(e) => ListenerStep::Failed(e),
            },
            NodeMessage::Frame => ListenerStep::Skip,
        },
    }
}

/// A subscription request satisfies the JSON-RPC 2.0 check that every message of
/// the node must pass.
pub proof fn law_subscribe_request_is_jsonrpc(id: u64, typ: Seq<char>)
    ensures
        spec_validate_jsonrpc(subscribe_request(id, typ)) is Ok,
{
    reveal_strlit("id");
    reveal_strlit("jsonrpc");
    let es = subscribe_request(id, typ)->Object_0;
    assert("id"@.len() == 2);
    assert("jsonrpc"@.len() == 7);
    assert(es[0].0 != "jsonrpc"@);
    lemma_member_first(es, "jsonrpc"@, 1);
}

/// The node's answer is accepted exactly when it speaks JSON-RPC 2.0 and confirms
/// the id that was requested.
pub proof fn law_ack_accepts_the_requested_id(expected: u64, response: JsonValue)
    ensures
        spec_subscription_ack(expected, NodeMessageView::Text(Ok(response))) is Ok <==> (response.field(
            "jsonrpc"@,
        ).is_text("2.0"@) && response.field("id"@).as_u64() == Some(expected)),
{
}

/// The subscription request carries the id and the event type it was made for:
/// its `id` member is `id`, its `method` is `subscribe` and its one parameter is
/// the query `tm.event='typ'`.
pub proof fn law_subscribe_request_carries_its_id(id: u64, typ: Seq<char>)
    ensures
        subscribe_request(id, typ).field("id"@).as_u64() == Some(id),
        subscribe_request(id, typ).field("method"@) == JsonValue::Str("subscribe"@),
        subscribe_request(id, typ).field("params"@) == JsonValue::Array(
            seq![JsonValue::Str("tm.event='"@ + typ + "'"@)],
        ),
{
    reveal_strlit("id");
    reveal_strlit("jsonrpc");
    reveal_strlit("method");
    reveal_strlit("params");
    let es = subscribe_request(id, typ)->Object_0;
    lemma_member_first(es, "id"@, 0);
    assert(es[0].0 != "method"@ && es[1].0 != "method"@) by {
        assert("id"@.len() != "method"@.len());
        assert("jsonrpc"@.len() != "method"@.len());
    }
    lemma_member_first(es, "method"@, 2);
    assert(es[0].0 != "params"@ && es[1].0 != "params"@ && es[2].0 != "params"@) by {
        assert("id"@.len() != "params"@.len());
        assert("jsonrpc"@.len() != "params"@.len());
        assert("method"@[0] != "params"@[0]);
    }
    lemma_member_first(es, "params"@, 3);
}

/// An answer that echoes the request's version and id is accepted by the check
/// for the id the request was made with.
pub proof fn law_echoed_request_is_acknowledged(id: u64, typ: Seq<char>, response: JsonValue)
    requires
        response.field("jsonrpc"@) == subscribe_request(id, typ).field("jsonrpc"@),
        response.field("id"@) == subscribe_request(id, typ).field("id"@),
    ensures
        spec_subscription_ack(id, NodeMessageView::Text(Ok(response))) is Ok,
{
    law_subscribe_request_is_jsonrpc(id, typ);
    law_subscribe_request_carries_its_id(id, typ);
    reveal_strlit("jsonrpc");
    reveal_strlit("id");
    let es = subscribe_request(id, typ)->Object_0;
    assert(es[0].0 != "jsonrpc"@) by {
        assert("id"@.len() != "jsonrpc"@.len());
    }
    lemma_member_first(es, "jsonrpc"@, 1);
}

} // verus!
