use vstd::prelude::*;

use crate::data::{EventView, Tx, events_view};
use crate::error::{ErrorView, StargridError};
use crate::msg::{
    Broadcast,
    EventFilterView,
    RepeaterMessage,
    RepeaterSubscription,
    SubscriptionView,
    subscriptions_view,
    tx_filters_match,
};
use crate::text::{decimal_text, push_decimal};

verus! {

/// The largest text message, in bytes, that a client may send.
pub const MAX_MESSAGE_SIZE: usize = 4000;

/// The most subscriptions a client may hold.
pub const MAX_FREE_SUBSCRIPTIONS: usize = 20;

/// What the repeater is told to do.
#[derive(Debug)]
pub enum RepeaterCommand {
    Broadcast(Broadcast),
    Close,
}

/// The subscriptions of one client of the repeater.
#[derive(Debug)]
pub struct ClientContext {
    pub subscriptions: Vec<RepeaterSubscription>,
}

impl View for ClientContext {
    type V = Seq<SubscriptionView>;

    open spec fn view(&self) -> Seq<SubscriptionView> {
        subscriptions_view(self.subscriptions@)
    }
}

/// Whether one of the subscriptions is to blocks.
pub open spec fn has_blocks(subs: Seq<SubscriptionView>) -> bool {
    exists|i: int| 0 <= i < subs.len() && #[trigger] subs[i] is Blocks
}

/// Whether a subscription to transactions holds this id.
pub open spec fn holds_id(s: SubscriptionView, id: u64) -> bool {
    s matches SubscriptionView::Txs { id: x, .. } && x == id
}

/// Whether one of the subscriptions to transactions holds this id.
pub open spec fn has_id(subs: Seq<SubscriptionView>, id: u64) -> bool {
    exists|i: int| 0 <= i < subs.len() && #[trigger] holds_id(subs[i], id)
}

/// Whether a subscription is to transactions and its filters match these events.
pub open spec fn wants_tx(s: SubscriptionView, events: Seq<EventView>) -> bool {
    s matches SubscriptionView::Txs { filters, .. } && tx_filters_match(filters, events)
}

/// Whether some subscription wants a transaction with these events.
pub open spec fn wants_some_tx(subs: Seq<SubscriptionView>, events: Seq<EventView>) -> bool {
    exists|i: int| 0 <= i < subs.len() && #[trigger] wants_tx(subs[i], events)
}

/// What a client may hold: at most the budget of subscriptions, at most one to
/// blocks, and no two to transactions under the same id.
pub open spec fn subscriptions_wf(subs: Seq<SubscriptionView>) -> bool {
    &&& subs.len() <= MAX_FREE_SUBSCRIPTIONS
    &&& forall|i: int, j: int|
        0 <= i < j < subs.len() && #[trigger] subs[i] is Blocks ==> !(#[trigger] subs[j] is Blocks)
    &&& forall|i: int, j: int|
        0 <= i < j < subs.len() && (#[trigger] subs[i] is Txs) && (#[trigger] subs[j] is Txs)
            ==> subs[i]->Txs_id != subs[j]->Txs_id
}

impl ClientContext {
    /// A client without subscriptions.
    pub fn new() -> (r: Self)
        ensures
            r@ == Seq::<SubscriptionView>::empty(),
    {
        let r = ClientContext { subscriptions: Vec::new() };
        assert(r@ =~= Seq::<SubscriptionView>::empty());
        r
    }

    pub fn has_block_subscription(&self) -> (r: bool)
        ensures
            r == has_blocks(self@),
    {
        let n = self.subscriptions.len();
        for i in 0..n
            invariant
                n == self.subscriptions.len(),
                forall|k: int| 0 <= k < i ==> !(#[trigger] self@[k] is Blocks),
        {
            assert(self@[i as int] == self.subscriptions@[i as int]@);
            if let RepeaterSubscription::Blocks = &self.subscriptions[i] {
                assert(self@[i as int] is Blocks);
                return true;
            }
        }
        false
    }

    /// The first subscription to transactions whose filters match the transaction
    /// (there can be more).
    pub fn find_tx_subscription(&self, tx: &Tx) -> (r: Option<&RepeaterSubscription>)
        ensures
            match r {
                None => !wants_some_tx(self@, events_view(tx.events@)),
                Some(s) => exists|i: int|
                    0 <= i < self@.len() && *s == self.subscriptions@[i] && #[trigger] wants_tx(
                        self@[i],
                        events_view(tx.events@),
                    ) && forall|j: int|
                        0 <= j < i ==> !#[trigger] wants_tx(self@[j], events_view(tx.events@)),
            },
    {
        let n = self.subscriptions.len();
        for i in 0..n
            invariant
                n == self.subscriptions.len(),
                forall|k: int| 0 <= k < i ==> !#[trigger] wants_tx(self@[k], events_view(tx.events@)),
        {
            let item = &self.subscriptions[i];
            assert(self@[i as int] == item@);
            if let RepeaterSubscription::Txs(subscription) = item {
                if subscription.matches(tx) {
                    assert(wants_tx(self@[i as int], events_view(tx.events@)));
                    return Some(item);
                }
            }
        }
        None
    }

    pub fn has_tx_subscription(&self, tx: &Tx) -> (r: bool)
        ensures
            r == wants_some_tx(self@, events_view(tx.events@)),
    {
        self.find_tx_subscription(tx).is_some()
    }

    pub fn has_tx_id(&self, id: u64) -> (r: bool)
        ensures
            r == has_id(self@, id),
    {
        let n = self.subscriptions.len();
        for i in 0..n
            invariant
                n == self.subscriptions.len(),
                forall|k: int| 0 <= k < i ==> !#[trigger] holds_id(self@[k], id),
        {
            assert(self@[i as int] == self.subscriptions@[i as int]@);
            if let RepeaterSubscription::Txs(subscription) = &self.subscriptions[i] {
                if subscription.id == id {
                    assert(holds_id(self@[i as int], id));
                    return true;
                }
            }
        }
        false
    }

    /// Adds a subscription, unless the client holds its budget of subscriptions already.
    pub fn push_subscription(&mut self, subscription: RepeaterSubscription) -> (r: Result<
        (),
        StargridError,
    >)
        ensures
            old(self)@.len() >= MAX_FREE_SUBSCRIPTIONS ==> final(self)@ == old(self)@ && r is Err
                && r->Err_0@ == ErrorView::BudgetError("Too many subscriptions"@),
            old(self)@.len() < MAX_FREE_SUBSCRIPTIONS ==> final(self)@ == old(self)@.push(
                subscription@,
            ) && r is Ok,
    {
        if self.subscriptions.len() >= MAX_FREE_SUBSCRIPTIONS {
            return Err(StargridError::BudgetError("Too many subscriptions".to_owned()));
        }
        let ghost before = self@;
        let ghost sv = subscription@;
        self.subscriptions.push(subscription);
        assert(self@ =~= before.push(sv));
        Ok(())
    }
}

/// A frame that a client sent.
#[derive(Debug)]
pub enum ClientMessage {
    Close,
    Binary,
    Ping,
    /// A text frame, and what reading it as a request gave.
    /// (Its size is the length of its UTF-8 encoding.)
    Text { text: String, request: Result<RepeaterMessage, StargridError> },
}

pub enum ClientMessageView {
    Close,
    Binary,
    Ping,
    Text { bytes: nat, request: Result<SubscriptionView, ErrorView> },
}

impl View for ClientMessage {
    type V = ClientMessageView;

    open spec fn view(&self) -> ClientMessageView {
        match self {
            ClientMessage::Close => ClientMessageView::Close,
            ClientMessage::Binary => ClientMessageView::Binary,
            ClientMessage::Ping => ClientMessageView::Ping,
            ClientMessage::Text { text, request } => ClientMessageView::Text {
                bytes: (vstd::utf8::encode_utf8(text@).len() as usize) as nat,
                request: match request {
                    Ok(RepeaterMessage::Subscribe(s)) => Ok(s@),
                    Err(e) => Err(e@),
                },
            },
        }
    }
}

/// What the repeater answers a client.
#[derive(Debug, PartialEq, Eq)]
pub enum ClientReply {
    /// Close the connection.
    Close,
    /// Answer a ping.
    Pong,
    /// Send `{"error": <text>}`.
    Error(String),
    /// Send `{"id": <id>}`: the subscription with that id is in place.
    SubscriptionId(u64),
}

pub enum ReplyView {
    Close,
    Pong,
    Error(Seq<char>),
    SubscriptionId(u64),
}

impl View for ClientReply {
    type V = ReplyView;

    open spec fn view(&self) -> ReplyView {
        match self {
            ClientReply::Close => ReplyView::Close,
            ClientReply::Pong => ReplyView::Pong,
            ClientReply::Error(s) => ReplyView::Error(s@),
            ClientReply::SubscriptionId(id) => ReplyView::SubscriptionId(*id),
        }
    }
}

pub open spec fn too_large_text() -> Seq<char> {
    "Message too large (>"@ + decimal_text(MAX_MESSAGE_SIZE as nat) + " characters)"@
}

pub open spec fn id_in_use_text(id: u64) -> Seq<char> {
    "Subscription ID "@ + decimal_text(id as nat) + " already in use"@
}

/// Adds a subscription within the budget: the new subscriptions and the outcome.
pub open spec fn spec_push(subs: Seq<SubscriptionView>, s: SubscriptionView) -> (
    Seq<SubscriptionView>,
    Result<(), ErrorView>,
) {
    if subs.len() >= MAX_FREE_SUBSCRIPTIONS {
        (subs, Err(ErrorView::BudgetError("Too many subscriptions"@)))
    } else {
        (subs.push(s), Ok(()))
    }
}

/// What handling a client frame does: the subscriptions afterwards, and the reply
/// or the error.
pub open spec fn spec_handle_message(subs: Seq<SubscriptionView>, msg: ClientMessageView) -> (
    Seq<SubscriptionView>,
    Result<Option<ReplyView>, ErrorView>,
) {
    match msg {
        ClientMessageView::Close => (subs, Ok(Some(ReplyView::Close))),
        ClientMessageView::Binary => (
            subs,
            Ok(Some(ReplyView::Error("Binary messages not supported"@))),
        ),
        ClientMessageView::Ping => (subs, Ok(Some(ReplyView::Pong))),
        ClientMessageView::Text { bytes, request } => if bytes > MAX_MESSAGE_SIZE {
            (subs, Err(ErrorView::Generic(too_large_text())))
        } else {
            match request {
                Err(e) => (subs, Err(e)),
                Ok(SubscriptionView::Blocks) => if has_blocks(subs) {
                    (subs, Ok(None))
                } else {
                    let (next, r) = spec_push(subs, SubscriptionView::Blocks);
                    (
                        next,
                        match r {
                            Ok(_) => Ok(None),
                            Err(e) => Err(e),
                        },
                    )
                },
                Ok(SubscriptionView::Txs { id, filters }) => if filters.len() == 0 {
                    (subs, Err(ErrorView::Generic("Subscription filters cannot be empty"@)))
                } else if has_id(subs, id) {
                    (subs, Err(ErrorView::Generic(id_in_use_text(id))))
                } else {
                    let (next, r) = spec_push(subs, SubscriptionView::Txs { id, filters });
                    (
                        next,
                        match r {
                            Ok(_) => Ok(Some(ReplyView::SubscriptionId(id))),
                            Err(e) => Err(e),
                        },
                    )
                },
            }
        },
    }
}

/// Handles one frame of a client: a close is answered by closing, a binary frame
/// by an error reply, a ping by a pong, and a text frame is read as a
/// subscription request and, where it is sound and within budget, put in place.
pub fn handle_message(ctx: &mut ClientContext, msg: ClientMessage) -> (r: Result<
    Option<ClientReply>,
    StargridError,
>)
    ensures
        (final(ctx)@, match r {
            Ok(Some(reply)) => Ok(Some(reply@)),
            Ok(None) => Ok(None),
            Err(e) => Err(e@),
        }) == spec_handle_message(old(ctx)@, msg@),
{
    match msg {
        ClientMessage::Close => Ok(Some(ClientReply::Close)),
        ClientMessage::Binary => Ok(
            Some(ClientReply::Error("Binary messages not supported".to_owned())),
        ),
        ClientMessage::Ping => Ok(Some(ClientReply::Pong)),
        ClientMessage::Text { text, request } => {
            if text.as_str().len() > MAX_MESSAGE_SIZE {
                let mut m = "Message too large (>".to_owned();
                push_decimal(&mut m, MAX_MESSAGE_SIZE as u64);
                m.append(" characters)");
                return Err(StargridError::Generic(m));
            }
            let msg = match request {
                Ok(m) => m,
                Err(e) => return Err(e),
            };
            match msg {
                RepeaterMessage::Subscribe(subscription) => {
                    match subscription {
                        RepeaterSubscription::Blocks => {
                            if !ctx.has_block_subscription() {
                                if let Err(e) = ctx.push_subscription(RepeaterSubscription::Blocks) {
                                    return Err(e);
                                }
                            }
                            Ok(None)
                        },
                        RepeaterSubscription::Txs(tx) => {
                            let id = tx.id;
                            if let Err(e) = tx.validate() {
                                return Err(e);
                            }
                            if ctx.has_tx_id(id) {
                                let mut m = "Subscription ID ".to_owned();
                                push_decimal(&mut m, id);
                                m.append(" already in use");
                                Err(StargridError::Generic(m))
                            } else {
                                match ctx.push_subscription(RepeaterSubscription::Txs(tx)) {
                                    Ok(()) => Ok(Some(ClientReply::SubscriptionId(id))),
                                    Err(e) => Err(e),
                                }
                            }
                        },
                    }
                },
            }
        },
    }
}

/// One step of a client connection on a frame: the reply to send, where there is
/// one; an error is answered with its text.
pub fn on_client_message(ctx: &mut ClientContext, msg: ClientMessage) -> (r: Option<ClientReply>)
    ensures
        final(ctx)@ == spec_handle_message(old(ctx)@, msg@).0,
        match spec_handle_message(old(ctx)@, msg@).1 {
            Ok(Some(reply)) => r matches Some(x) && x@ == reply,
            Ok(None) => r is None,
            Err(e) => r matches Some(x) && x@ == ReplyView::Error(crate::error::error_message(e)),
        },
{
    match handle_message(ctx, msg) {
        Ok(reply) => reply,
        Err(err) => Some(ClientReply::Error(err.message())),
    }
}

/// What a client connection does with a broadcast.
#[derive(Debug, PartialEq, Eq)]
pub enum BroadcastStep {
    /// Nothing for this client.
    Skip,
    /// Send `{"block": <block>}`.
    SendBlock,
    /// Send `{"tx": <tx>}`.
    SendTx,
    /// Send a close frame with reason "Repeater closed", close, and stop.
    Close,
}

/// Decides what a client connection does with a broadcast: blocks go to clients
/// subscribed to blocks, transactions to clients with a matching subscription,
/// and a close ends every connection.
pub fn on_broadcast(ctx: &ClientContext, broadcast: &Broadcast) -> (r: BroadcastStep)
    ensures
        match broadcast {
            Broadcast::Block(_) => r == (if has_blocks(ctx@) {
                BroadcastStep::SendBlock
            } else {
                BroadcastStep::Skip
            }),
            Broadcast::Tx(tx) => r == (if wants_some_tx(ctx@, events_view(tx.events@)) {
                BroadcastStep::SendTx
            } else {
                BroadcastStep::Skip
            }),
            Broadcast::Close => r == BroadcastStep::Close,
            Broadcast::Nothing => r == BroadcastStep::Skip,
        },
{
    match broadcast {
        Broadcast::Block(_) => if ctx.has_block_subscription() {
            BroadcastStep::SendBlock
        } else {
            BroadcastStep::Skip
        },
        Broadcast::Tx(tx) => if ctx.has_tx_subscription(tx) {
            BroadcastStep::SendTx
        } else {
            BroadcastStep::Skip
        },
        Broadcast::Close => BroadcastStep::Close,
        Broadcast::Nothing => BroadcastStep::Skip,
    }
}

/// What the repeater does with a command.
#[derive(Debug)]
pub enum RepeaterStep {
    /// Hand the broadcast on to every client.
    Forward(Broadcast),
    /// Nothing to hand on.
    Skip,
    /// Tell every client that the repeater closes, and stop.
    Shutdown,
}

/// Decides what the repeater does with a command: blocks and transactions are
/// handed on, other broadcasts are internal and dropped, and a close shuts down.
pub fn on_repeater_command(cmd: RepeaterCommand) -> (r: RepeaterStep)
    ensures
        match cmd {
            RepeaterCommand::Broadcast(Broadcast::Block(b)) => r == RepeaterStep::Forward(Broadcast::Block(b)),
            RepeaterCommand::Broadcast(Broadcast::Tx(t)) => r == RepeaterStep::Forward(Broadcast::Tx(t)),
            RepeaterCommand::Broadcast(_) => r is Skip,
            RepeaterCommand::Close => r is Shutdown,
        },
{
    match cmd {
        RepeaterCommand::Broadcast(broadcast) => match broadcast {
            Broadcast::Block(block) => RepeaterStep::Forward(Broadcast::Block(block)),
            Broadcast::Tx(tx) => RepeaterStep::Forward(Broadcast::Tx(tx)),
            _ => RepeaterStep::Skip,
        },
        RepeaterCommand::Close => RepeaterStep::Shutdown,
    }
}

/// Handling a frame keeps what a client may hold: within the budget, at most one
/// subscription to blocks, and no two subscriptions to transactions under one id.
pub proof fn law_handle_message_keeps_wf(subs: Seq<SubscriptionView>, msg: ClientMessageView)
    requires
        subscriptions_wf(subs),
    ensures
        subscriptions_wf(spec_handle_message(subs, msg).0),
{
    let next = spec_handle_message(subs, msg).0;
    if next != subs {
        let last = next.last();
        assert(next =~= subs.push(last));
        assert forall|i: int, j: int|
            0 <= i < j < next.len() && #[trigger] next[i] is Blocks implies !(#[trigger] next[j] is Blocks) by {
            if j == next.len() - 1 && last is Blocks {
                assert(subs[i] is Blocks);
                assert(has_blocks(subs));
            }
        }
        assert forall|i: int, j: int|
            0 <= i < j < next.len() && (#[trigger] next[i] is Txs) && (#[trigger] next[j] is Txs)
                implies next[i]->Txs_id != next[j]->Txs_id by {
            if j == next.len() - 1 {
                assert(holds_id(subs[i], subs[i]->Txs_id));
            }
        }
    }
}

/// A refused frame leaves the subscriptions as they were.
pub proof fn law_refused_request_changes_nothing(subs: Seq<SubscriptionView>, msg: ClientMessageView)
    ensures
        spec_handle_message(subs, msg).1 is Err ==> spec_handle_message(subs, msg).0 == subs,
{
}

/// A subscription to transactions that is confirmed is held under its id afterwards,
/// and an accepted request for blocks leaves the client subscribed to blocks.
pub proof fn law_accepted_subscription_is_held(subs: Seq<SubscriptionView>, msg: ClientMessageView)
    ensures
        spec_handle_message(subs, msg).1 matches Ok(Some(ReplyView::SubscriptionId(id)))
            ==> has_id(spec_handle_message(subs, msg).0, id),
        msg matches ClientMessageView::Text { request: Ok(SubscriptionView::Blocks), .. }
            && spec_handle_message(subs, msg).1 is Ok ==> has_blocks(spec_handle_message(subs, msg).0),
{
    let next = spec_handle_message(subs, msg).0;
    if let Ok(Some(ReplyView::SubscriptionId(id))) = spec_handle_message(subs, msg).1 {
        assert(holds_id(next[next.len() - 1], id));
    }
    if msg matches ClientMessageView::Text { request: Ok(SubscriptionView::Blocks), .. }
        && spec_handle_message(subs, msg).1 is Ok {
        if !has_blocks(subs) {
            assert(next[next.len() - 1] is Blocks);
        }
    }
}

/// Handling a frame adds at most the one subscription the frame asks for, as it
/// was asked for (a subscription to transactions keeps every filter), at the
/// end; a confirmed subscription to transactions is always added so.
pub proof fn law_handle_message_adds_only_the_request(subs: Seq<SubscriptionView>, msg: ClientMessageView)
    ensures
        spec_handle_message(subs, msg).0 == subs || (msg matches ClientMessageView::Text {
            request: Ok(s),
            ..
        } && spec_handle_message(subs, msg).0 == subs.push(s)),
        msg matches ClientMessageView::Text { request: Ok(s), .. } ==> (spec_handle_message(
            subs,
            msg,
        ).1 matches Ok(Some(ReplyView::SubscriptionId(_))) ==> spec_handle_message(subs, msg).0
            == subs.push(s)),
{
}

/// A request for transactions that fits in a frame, has filters, names a fresh
/// id and fits in the budget is confirmed by its id and held as requested.
pub proof fn law_fresh_tx_subscription_is_accepted(
    subs: Seq<SubscriptionView>,
    bytes: nat,
    id: u64,
    filters: Seq<EventFilterView>,
)
    requires
        bytes <= MAX_MESSAGE_SIZE,
        filters.len() > 0,
        !has_id(subs, id),
        subs.len() < MAX_FREE_SUBSCRIPTIONS,
    ensures
        spec_handle_message(
            subs,
            ClientMessageView::Text { bytes, request: Ok(SubscriptionView::Txs { id, filters }) },
        ) == (subs.push(SubscriptionView::Txs { id, filters }), Ok::<Option<ReplyView>, ErrorView>(
            Some(ReplyView::SubscriptionId(id)),
        )),
{
}

} // verus!
