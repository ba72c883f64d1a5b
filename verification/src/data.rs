use base64::Engine;
use vstd::prelude::*;

use crate::error::{ErrorView, StargridError};
use crate::json::{Json, JsonValue, path_view};
use crate::render::{debug_text, json_debug_text};
use crate::text::{decimal_text, push_char, push_decimal};

verus! {

/// Subscription id under which new blocks arrive from the node.
pub const SUB_ID_BLOCK: u64 = 1;

/// Subscription id under which transactions arrive from the node.
pub const SUB_ID_TX: u64 = 2;

// ---------------------------------------------------------------------------
// Outside computations
// ---------------------------------------------------------------------------

/// One more than the largest value of a 256-bit unsigned integer.
pub open spec fn u256_limit() -> nat {
    0x1_0000_0000_0000_0000_0000_0000_0000_0000_0000_0000_0000_0000_0000_0000_0000_0000nat
}

/// The value of four little-endian 64-bit limbs.
pub open spec fn limbs_value(limbs: Seq<u64>) -> nat {
    limbs[0] as nat + limbs[1] as nat * 0x1_0000_0000_0000_0000nat + limbs[2] as nat
        * 0x1_0000_0000_0000_0000_0000_0000_0000_0000nat + limbs[3] as nat
        * 0x1_0000_0000_0000_0000_0000_0000_0000_0000_0000_0000_0000_0000nat
}

/// How reading decimal digits left to right ends.
pub enum DecimalScan {
    Value(nat),
    InvalidCharacter,
    TooLarge,
}

pub open spec fn is_digit(c: char) -> bool {
    '0' <= c && c <= '9'
}

pub open spec fn digit_value(c: char) -> nat {
    (c as int - '0' as int) as nat
}

/// Reads `s` as decimal digits onto `acc`, failing at the first non-digit or
/// at the first digit that takes the value to 2^256 or beyond.
pub open spec fn scan_decimal(s: Seq<char>, acc: nat) -> DecimalScan
    decreases s.len(),
{
    if s.len() == 0 {
        DecimalScan::Value(acc)
    } else if !is_digit(s[0]) {
        DecimalScan::InvalidCharacter
    } else if acc * 10 + digit_value(s[0]) >= u256_limit() {
        DecimalScan::TooLarge
    } else {
        scan_decimal(s.drop_first(), acc * 10 + digit_value(s[0]))
    }
}

/// `primitive_types::U256::from_dec_str`: the digits are read left to right;
/// the first byte that is no ASCII digit gives the error "a character is not in
/// the range 0-9", and the first digit that takes the value to 2^256 or beyond
/// gives "the number is too large for the type". The empty text reads as 0.
/// The value comes back as its four little-endian 64-bit limbs, the error as
/// its display text.
#[verifier::external_body]
pub(crate) fn u256_from_dec_str(s: &str) -> (r: Result<[u64; 4], String>)
    ensures
        match scan_decimal(s@, 0) {
            DecimalScan::Value(v) => r is Ok && limbs_value(r->Ok_0@) == v,
            DecimalScan::InvalidCharacter => r is Err && r->Err_0@
                == "a character is not in the range 0-9"@,
            DecimalScan::TooLarge => r is Err && r->Err_0@ == "the number is too large for the type"@,
        },
{
    match primitive_types::U256::from_dec_str(s) {
        Ok(v) => Ok(v.0),
        Err(e) => Err(e.to_string()),
    }
}

/// What `iso8601_timestamp::Timestamp::parse` makes of a text, as nanoseconds
/// since 1970-01-01T00:00:00Z; `None` where it refuses the text.
pub uninterp spec fn iso8601_nanos(s: Seq<char>) -> Option<int>;

/// `iso8601_timestamp::Timestamp::parse`: the result is a function of the text alone,
/// handed back as nanoseconds since the Unix epoch.
#[verifier::external_body]
pub(crate) fn parse_timestamp(s: &str) -> (r: Option<i128>)
    ensures
        match r {
            Some(n) => iso8601_nanos(s@) == Some(n as int),
            None => iso8601_nanos(s@) is None,
        },
{
    match iso8601_timestamp::Timestamp::parse(s) {
        Some(t) => Some(t.duration_since(iso8601_timestamp::Timestamp::UNIX_EPOCH).whole_nanoseconds()),
        None => None,
    }
}

/// What decoding a text with the standard base64 alphabet and padding gives;
/// `None` where the decoder refuses it.
pub uninterp spec fn base64_standard_decode(s: Seq<char>) -> Option<Seq<u8>>;

/// `base64::engine::general_purpose::STANDARD.decode`: the result is a function of
/// the text alone; any decoding error comes back as `None`.
#[verifier::external_body]
pub(crate) fn base64_decode(s: &str) -> (r: Option<Vec<u8>>)
    ensures
        match r {
            Some(bytes) => base64_standard_decode(s@) == Some(bytes@),
            None => base64_standard_decode(s@) is None,
        },
{
    base64::engine::general_purpose::STANDARD.decode(s).ok()
}

/// The SHA-256 digest of `data` in lowercase hexadecimal.
pub uninterp spec fn sha256_hex(data: Seq<u8>) -> Seq<char>;

pub open spec fn is_lower_hex(c: char) -> bool {
    ('0' <= c && c <= '9') || ('a' <= c && c <= 'f')
}

/// `sha256::digest`: the digest of the bytes, hex-encoded with lowercase digits,
/// 64 characters long.
#[verifier::external_body]
pub(crate) fn sha256_digest(data: Vec<u8>) -> (r: String)
    ensures
        r@ == sha256_hex(data@),
        r@.len() == 64,
        forall|i: int| 0 <= i < r@.len() ==> is_lower_hex(#[trigger] r@[i]),
{
    sha256::digest(data)
}

pub open spec fn is_upper_hex(c: char) -> bool {
    ('0' <= c && c <= '9') || ('A' <= c && c <= 'F')
}

/// The upper-case form of an ASCII letter; any other character stays.
pub open spec fn ascii_upper(c: char) -> char {
    if 'a' <= c && c <= 'z' {
        ((c as u32) - 32) as char
    } else {
        c
    }
}

/// The text with `a`-`z` turned into `A`-`Z` and every other character kept:
/// on ASCII text, what `str::to_uppercase` gives.
pub fn ascii_uppercase(s: &str) -> (r: String)
    ensures
        r@ == s@.map_values(|c: char| ascii_upper(c)),
{
    let n = s.unicode_len();
    let mut out = String::new();
    let mut i: usize = 0;
    while i < n
        invariant
            n == s@.len(),
            i <= n,
            out@ == s@.take(i as int).map_values(|c: char| ascii_upper(c)),
        decreases n - i,
    {
        let c = s.get_char(i);
        let u = if 'a' <= c && c <= 'z' {
            ((c as u8 - 32) as char)
        } else {
            c
        };
        push_char(&mut out, u);
        assert(s@.take(i + 1) =~= s@.take(i as int).push(c));
        assert(out@ =~= s@.take(i + 1).map_values(|c: char| ascii_upper(c)));
        i = i + 1;
    }
    assert(s@.take(n as int) =~= s@);
    out
}

// ---------------------------------------------------------------------------
// Data model
// ---------------------------------------------------------------------------

/// The value of an event attribute.
#[derive(Debug)]
pub struct AttributeValue {
    pub indexed: bool,
    pub value: Json,
}

pub struct AttributeView {
    pub indexed: bool,
    pub value: JsonValue,
}

impl View for AttributeValue {
    type V = AttributeView;

    open spec fn view(&self) -> AttributeView {
        AttributeView { indexed: self.indexed, value: self.value@ }
    }
}

/// An event emitted by a block or a transaction, with its attributes by name.
///
/// Reading an event gives each attribute name once (`law_attributes_keys_distinct`).
#[derive(Debug)]
pub struct Event {
    pub name: String,
    pub attributes: Vec<(String, AttributeValue)>,
}

pub struct EventView {
    pub name: Seq<char>,
    pub attributes: Seq<(Seq<char>, AttributeView)>,
}

pub open spec fn attributes_view(attrs: Seq<(String, AttributeValue)>) -> Seq<(Seq<char>, AttributeView)> {
    attrs.map_values(|p: (String, AttributeValue)| (p.0@, p.1@))
}

impl View for Event {
    type V = EventView;

    open spec fn view(&self) -> EventView {
        EventView { name: self.name@, attributes: attributes_view(self.attributes@) }
    }
}

impl Event {
    /// The attribute named `key`; the event must have it.
    pub fn index(&self, key: &str) -> (r: &AttributeValue)
        requires
            exists|i: int| 0 <= i < self.attributes@.len() && #[trigger] self.attributes@[i].0@ == key@,
        ensures
            exists|i: int|
                0 <= i < self.attributes@.len() && #[trigger] self.attributes@[i].0@ == key@ && *r
                    == self.attributes@[i].1,
    {
        let n = self.attributes.len();
        let mut i: usize = 0;
        loop
            invariant
                n == self.attributes.len(),
                i <= n,
                forall|j: int| 0 <= j < i ==> #[trigger] self.attributes@[j].0@ != key@,
                exists|j: int| 0 <= j < n && #[trigger] self.attributes@[j].0@ == key@,
            decreases n - i,
        {
            assert(i < n) by {
                let j = choose|j: int| 0 <= j < n && #[trigger] self.attributes@[j].0@ == key@;
                assert(j >= i);
            }
            if crate::json::same_text(self.attributes[i].0.as_str(), key) {
                return &self.attributes[i].1;
            }
            i = i + 1;
        }
    }
}

pub open spec fn events_view(events: Seq<Event>) -> Seq<EventView> {
    events.map_values(|e: Event| e@)
}

/// The error a failed transaction reports.
#[derive(Debug)]
pub struct TxError {
    pub code: u64,
    pub codespace: String,
    pub message: String,
}

pub struct TxErrorView {
    pub code: u64,
    pub codespace: Seq<char>,
    pub message: Seq<char>,
}

impl View for TxError {
    type V = TxErrorView;

    open spec fn view(&self) -> TxErrorView {
        TxErrorView { code: self.code, codespace: self.codespace@, message: self.message@ }
    }
}

/// A block as the node announces it.
///
/// `raw` is the event payload; `height` holds the four little-endian 64-bit
/// limbs of a 256-bit number; `time` counts nanoseconds since the Unix epoch.
#[derive(Debug)]
pub struct Block {
    pub raw: Json,
    pub height: [u64; 4],
    pub hash: String,
    pub chain_id: String,
    pub time: i128,
    pub events: Vec<Event>,
}

pub struct BlockView {
    pub raw: JsonValue,
    pub height: nat,
    pub hash: Seq<char>,
    pub chain_id: Seq<char>,
    pub time: int,
    pub events: Seq<EventView>,
}

impl View for Block {
    type V = BlockView;

    open spec fn view(&self) -> BlockView {
        BlockView {
            raw: self.raw@,
            height: limbs_value(self.height@),
            hash: self.hash@,
            chain_id: self.chain_id@,
            time: self.time as int,
            events: events_view(self.events@),
        }
    }
}

/// A transaction as the node announces it.
#[derive(Debug)]
pub struct Tx {
    pub raw: Json,
    pub error: Option<TxError>,
    pub height: [u64; 4],
    pub tx: String,
    pub txhash: String,
    pub events: Vec<Event>,
}

pub struct TxView {
    pub raw: JsonValue,
    pub error: Option<TxErrorView>,
    pub height: nat,
    pub tx: Seq<char>,
    pub txhash: Seq<char>,
    pub events: Seq<EventView>,
}

impl View for Tx {
    type V = TxView;

    open spec fn view(&self) -> TxView {
        TxView {
            raw: self.raw@,
            error: match self.error {
                Some(e) => Some(e@),
                None => None,
            },
            height: limbs_value(self.height@),
            tx: self.tx@,
            txhash: self.txhash@,
            events: events_view(self.events@),
        }
    }
}

// ---------------------------------------------------------------------------
// What parsing gives
// ---------------------------------------------------------------------------

/// The value or the error of a result, by their views.
pub open spec fn outcome<T: View>(r: Result<T, StargridError>) -> Result<T::V, ErrorView> {
    match r {
        Ok(v) => Ok(v@),
        Err(e) => Err(e@),
    }
}

/// The debug text of an optional `u64`.
pub open spec fn option_u64_debug(o: Option<u64>) -> Seq<char> {
    match o {
        Some(n) => "Some("@ + decimal_text(n as nat) + ")"@,
        None => "None"@,
    }
}

pub open spec fn spec_validate_jsonrpc(data: JsonValue) -> Result<(), ErrorView> {
    if data.field("jsonrpc"@).is_text("2.0"@) {
        Ok(())
    } else {
        Err(ErrorView::UnexpectedValue("\"2.0\""@, debug_text(data.field("jsonrpc"@))))
    }
}

/// The value at `path`, or the format error `msg` where it is `Null`.
pub open spec fn spec_get_path(value: JsonValue, path: Seq<Seq<char>>, msg: Seq<char>) -> Result<
    JsonValue,
    ErrorView,
> {
    let v = value.at_path(path);
    if v == JsonValue::Null {
        Err(ErrorView::InvalidFormat(msg))
    } else {
        Ok(v)
    }
}

/// The text at `path`: `missing` where there is nothing, `invalid` where it is no string.
pub open spec fn spec_text_at(
    value: JsonValue,
    path: Seq<Seq<char>>,
    missing: Seq<char>,
    invalid: Seq<char>,
) -> Result<Seq<char>, ErrorView> {
    match spec_get_path(value, path, missing) {
        Err(e) => Err(e),
        Ok(v) => match v.as_str() {
            Some(s) => Ok(s),
            None => Err(ErrorView::InvalidFormat(invalid)),
        },
    }
}

pub open spec fn spec_block_payload(data: JsonValue) -> Result<JsonValue, ErrorView> {
    match spec_get_path(data, seq!["result"@, "data"@], "Expected .result.data"@) {
        Err(e) => Err(e),
        Ok(d) => if d.field("type"@).is_text("tendermint/event/NewBlock"@) {
            Ok(d)
        } else {
            Err(ErrorView::InvalidFormat("Expected NewBlock event"@))
        },
    }
}

pub open spec fn spec_tx_payload(data: JsonValue) -> Result<JsonValue, ErrorView> {
    match spec_get_path(data, seq!["result"@, "data"@], "Expected .result.data"@) {
        Err(e) => Err(e),
        Ok(d) => if d.field("type"@).is_text("tendermint/event/Tx"@) {
            spec_get_path(d, seq!["value"@, "TxResult"@], "Expected .result.data.value.TxResult"@)
        } else {
            Err(ErrorView::InvalidFormat("Expected Tx event"@))
        },
    }
}

pub open spec fn spec_block_height(payload: JsonValue) -> Result<nat, ErrorView> {
    match spec_text_at(
        payload,
        seq!["value"@, "block"@, "header"@, "height"@],
        "Missing block height"@,
        "Invalid block height"@,
    ) {
        Err(e) => Err(e),
        Ok(s) => match scan_decimal(s, 0) {
            DecimalScan::Value(v) => Ok(v),
            _ => Err(ErrorView::ParseError("Failed to parse block height"@)),
        },
    }
}

pub open spec fn spec_tx_height(payload: JsonValue) -> Result<nat, ErrorView> {
    match payload.field("height"@).as_str() {
        None => Err(ErrorView::InvalidFormat("Invalid tx height"@)),
        Some(s) => match scan_decimal(s, 0) {
            DecimalScan::Value(v) => Ok(v),
            DecimalScan::InvalidCharacter => Err(
                ErrorView::ParseError(
                    "Failed to parse tx height: "@ + "a character is not in the range 0-9"@,
                ),
            ),
            DecimalScan::TooLarge => Err(
                ErrorView::ParseError(
                    "Failed to parse tx height: "@ + "the number is too large for the type"@,
                ),
            ),
        },
    }
}

pub open spec fn spec_block_hash(payload: JsonValue) -> Result<Seq<char>, ErrorView> {
    spec_text_at(
        payload,
        seq!["value"@, "block"@, "header"@, "app_hash"@],
        "Missing block hash"@,
        "Invalid block hash"@,
    )
}

pub open spec fn spec_chain_id(payload: JsonValue) -> Result<Seq<char>, ErrorView> {
    spec_text_at(
        payload,
        seq!["value"@, "block"@, "header"@, "chain_id"@],
        "Missing chain ID"@,
        "Invalid chain ID"@,
    )
}

pub open spec fn spec_block_time(payload: JsonValue) -> Result<int, ErrorView> {
    match spec_text_at(
        payload,
        seq!["value"@, "block"@, "header"@, "time"@],
        "Missing block timestamp"@,
        "Invalid block timestamp"@,
    ) {
        Err(e) => Err(e),
        Ok(s) => match iso8601_nanos(s) {
            Some(t) => Ok(t),
            None => Err(ErrorView::ParseError("Failed to parse block timestamp"@)),
        },
    }
}

pub open spec fn spec_tx_error(payload: JsonValue) -> Result<Option<TxErrorView>, ErrorView> {
    let code = payload.at_path(seq!["result"@, "code"@]);
    if code == JsonValue::Null {
        Ok(None)
    } else {
        match code.as_u64() {
            None => Err(ErrorView::InvalidFormat("Invalid tx error code"@)),
            Some(c) => match payload.at_path(seq!["result"@, "codespace"@]).as_str() {
                None => Err(ErrorView::InvalidFormat("Invalid tx error codespace"@)),
                Some(cs) => match payload.at_path(seq!["result"@, "log"@]).as_str() {
                    None => Err(ErrorView::InvalidFormat("Invalid tx error message"@)),
                    Some(m) => Ok(Some(TxErrorView { code: c, codespace: cs, message: m })),
                },
            },
        }
    }
}

/// `s` with the pair for `k` set to `v`: in place of the first pair with that key,
/// or at the end where there is none.
pub open spec fn insert_pair<K, V>(s: Seq<(K, V)>, k: K, v: V) -> Seq<(K, V)>
    decreases s.len(),
{
    if s.len() == 0 {
        seq![(k, v)]
    } else if s[0].0 == k {
        s.update(0, (k, v))
    } else {
        seq![s[0]] + insert_pair(s.drop_first(), k, v)
    }
}

pub proof fn lemma_insert_pair_found<K, V>(s: Seq<(K, V)>, k: K, v: V, j: int)
    requires
        0 <= j < s.len(),
        s[j].0 == k,
        forall|i: int| 0 <= i < j ==> s[i].0 != k,
    ensures
        insert_pair(s, k, v) == s.update(j, (k, v)),
    decreases j,
{
    if j > 0 {
        lemma_insert_pair_found(s.drop_first(), k, v, j - 1);
        assert(insert_pair(s, k, v) =~= s.update(j, (k, v)));
    }
}

pub proof fn lemma_insert_pair_new<K, V>(s: Seq<(K, V)>, k: K, v: V)
    requires
        forall|i: int| 0 <= i < s.len() ==> s[i].0 != k,
    ensures
        insert_pair(s, k, v) == s.push((k, v)),
    decreases s.len(),
{
    if s.len() > 0 {
        lemma_insert_pair_new(s.drop_first(), k, v);
        assert(insert_pair(s, k, v) =~= s.push((k, v)));
    } else {
        assert(insert_pair(s, k, v) =~= s.push((k, v)));
    }
}

/// The attribute that one element of an attribute list gives.
pub open spec fn spec_attribute_entry(elem: JsonValue) -> Result<(Seq<char>, AttributeView), ErrorView> {
    match elem.field("key"@).as_str() {
        None => Err(ErrorView::InvalidFormat("Invalid attribute key"@)),
        Some(k) => Ok(
            (
                k,
                AttributeView {
                    indexed: match elem.field("index"@).as_bool() {
                        Some(b) => b,
                        None => false,
                    },
                    value: elem.field("value"@),
                },
            ),
        ),
    }
}

pub open spec fn spec_collect_attributes(items: Seq<JsonValue>) -> Result<
    Seq<(Seq<char>, AttributeView)>,
    ErrorView,
>
    decreases items.len(),
{
    if items.len() == 0 {
        Ok(Seq::empty())
    } else {
        match spec_collect_attributes(items.drop_last()) {
            Err(e) => Err(e),
            Ok(attrs) => match spec_attribute_entry(items.last()) {
                Err(e) => Err(e),
                Ok(entry) => Ok(insert_pair(attrs, entry.0, entry.1)),
            },
        }
    }
}

pub open spec fn spec_parse_attributes(attrs: JsonValue) -> Result<
    Seq<(Seq<char>, AttributeView)>,
    ErrorView,
> {
    match attrs {
        JsonValue::Array(items) => spec_collect_attributes(items),
        _ => Err(ErrorView::InvalidFormat("Invalid attributes"@)),
    }
}

pub open spec fn spec_parse_event(event: JsonValue) -> Result<EventView, ErrorView> {
    if !(event.field("type"@) is Str) || !(event.field("attributes"@) is Array) {
        Err(ErrorView::InvalidFormat("Invalid event format"@))
    } else {
        match spec_parse_attributes(event.field("attributes"@)) {
            Err(e) => Err(e),
            Ok(attrs) => Ok(EventView { name: event.field("type"@)->Str_0, attributes: attrs }),
        }
    }
}

pub open spec fn spec_collect_events(items: Seq<JsonValue>) -> Result<Seq<EventView>, ErrorView>
    decreases items.len(),
{
    if items.len() == 0 {
        Ok(Seq::empty())
    } else {
        match spec_collect_events(items.drop_last()) {
            Err(e) => Err(e),
            Ok(events) => match spec_parse_event(items.last()) {
                Err(e) => Err(e),
                Ok(ev) => Ok(events.push(ev)),
            },
        }
    }
}

pub open spec fn spec_parse_events(events: JsonValue) -> Result<Seq<EventView>, ErrorView> {
    match events {
        JsonValue::Array(items) => spec_collect_events(items),
        _ => Err(ErrorView::InvalidFormat("Invalid events"@)),
    }
}

pub open spec fn spec_tx_hash(tx: Seq<char>) -> Result<Seq<char>, ErrorView> {
    match base64_standard_decode(tx) {
        None => Err(ErrorView::ParseError("Failed to decode tx bytes"@)),
        Some(bytes) => Ok(sha256_hex(bytes).map_values(|c: char| ascii_upper(c))),
    }
}

/// What `parse_block` gives for a JSON-RPC message.
pub open spec fn spec_parse_block(data: JsonValue) -> Result<BlockView, ErrorView> {
    match spec_validate_jsonrpc(data) {
        Err(e) => Err(e),
        Ok(_) => if data.field("id"@).as_u64() != Some(SUB_ID_BLOCK) {
            Err(
                ErrorView::UnexpectedValue(
                    option_u64_debug(Some(SUB_ID_BLOCK)),
                    debug_text(data.field("id"@)),
                ),
            )
        } else {
            match spec_block_payload(data) {
                Err(e) => Err(e),
                Ok(payload) => match spec_get_path(
                    payload,
                    seq!["value"@, "result_begin_block"@],
                    "Missing result_begin_block"@,
                ) {
                    Err(e) => Err(e),
                    Ok(begin) => match spec_get_path(
                        payload,
                        seq!["value"@, "result_end_block"@],
                        "Missing result_end_block"@,
                    ) {
                        Err(e) => Err(e),
                        Ok(end) => match spec_parse_events(begin.field("events"@)) {
                            Err(e) => Err(e),
                            Ok(begin_events) => match spec_parse_events(end.field("events"@)) {
                                Err(e) => Err(e),
                                Ok(end_events) => match spec_block_height(payload) {
                                    Err(e) => Err(e),
                                    Ok(height) => match spec_block_hash(payload) {
                                        Err(e) => Err(e),
                                        Ok(hash) => match spec_chain_id(payload) {
                                            Err(e) => Err(e),
                                            Ok(chain_id) => match spec_block_time(payload) {
                                                Err(e) => Err(e),
                                                Ok(time) => Ok(
                                                    BlockView {
                                                        raw: payload,
                                                        height,
                                                        hash,
                                                        chain_id,
                                                        time,
                                                        events: begin_events + end_events,
                                                    },
                                                ),
                                            },
                                        },
                                    },
                                },
                            },
                        },
                    },
                },
            }
        },
    }
}

/// What `parse_tx` gives for a JSON-RPC message.
pub open spec fn spec_parse_tx(data: JsonValue) -> Result<TxView, ErrorView> {
    match spec_validate_jsonrpc(data) {
        Err(e) => Err(e),
        Ok(_) => if data.field("id"@).as_u64() != Some(SUB_ID_TX) {
            Err(
                ErrorView::UnexpectedValue(
                    option_u64_debug(Some(SUB_ID_TX)),
                    option_u64_debug(data.field("id"@).as_u64()),
                ),
            )
        } else {
            match spec_tx_payload(data) {
                Err(e) => Err(e),
                Ok(payload) => match payload.field("tx"@).as_str() {
                    None => Err(ErrorView::InvalidFormat("Missing tx bytes"@)),
                    Some(tx) => match spec_tx_hash(tx) {
                        Err(e) => Err(e),
                        Ok(txhash) => match spec_get_path(
                            payload,
                            seq!["result"@, "events"@],
                            "Missing events"@,
                        ) {
                            Err(e) => Err(e),
                            Ok(events_value) => match spec_parse_events(events_value) {
                                Err(e) => Err(e),
                                Ok(events) => match spec_tx_error(payload) {
                                    Err(e) => Err(e),
                                    Ok(error) => match spec_tx_height(payload) {
                                        Err(e) => Err(e),
                                        Ok(height) => Ok(
                                            TxView { raw: payload, error, height, tx, txhash, events },
                                        ),
                                    },
                                },
                            },
                        },
                    },
                },
            }
        },
    }
}

// ---------------------------------------------------------------------------
// Parsing
// ---------------------------------------------------------------------------

fn format_error(msg: &str) -> (r: StargridError)
    ensures
        r@ == ErrorView::InvalidFormat(msg@),
{
    StargridError::InvalidFormat(msg.to_owned())
}

fn parse_error(msg: &str) -> (r: StargridError)
    ensures
        r@ == ErrorView::ParseError(msg@),
{
    StargridError::ParseError(msg.to_owned())
}

/// The debug text of an optional `u64`, as `Some(7)` or `None`.
pub fn option_u64_debug_text(o: Option<u64>) -> (r: String)
    ensures
        r@ == option_u64_debug(o),
{
    match o {
        Some(n) => {
            let mut s = "Some(".to_owned();
            push_decimal(&mut s, n);
            s.append(")");
            s
        },
        None => "None".to_owned(),
    }
}

/// Checks that a message speaks JSON-RPC 2.0.
pub fn validate_jsonrpc(data: &Json) -> (r: Result<(), StargridError>)
    ensures
        outcome(r) == spec_validate_jsonrpc(data@),
{
    let ok = match data.get("jsonrpc") {
        Some(v) => v.is_text("2.0"),
        None => false,
    };
    if ok {
        Ok(())
    } else {
        let got = data.field_value("jsonrpc");
        Err(StargridError::unexpected_value("\"2.0\"".to_owned(), json_debug_text(&got)))
    }
}

/// The value at `path` (`Null` where there is none), copied out.
fn try_get_path(value: &Json, path: &[&str]) -> (r: Json)
    ensures
        r@ == value@.at_path(path_view(path@)),
{
    value.at_path(path)
}

/// The value at `path`, or the format error `errmsg` where it is `Null`.
fn get_path(value: &Json, path: &[&str], errmsg: &str) -> (r: Result<Json, StargridError>)
    ensures
        outcome(r) == spec_get_path(value@, path_view(path@), errmsg@),
{
    let val = try_get_path(value, path);
    if val.is_null() {
        Err(format_error(errmsg))
    } else {
        Ok(val)
    }
}

/// The text at `path`: `missing` where there is nothing, `invalid` where it is no string.
fn text_at(value: &Json, path: &[&str], missing: &str, invalid: &str) -> (r: Result<
    String,
    StargridError,
>)
    ensures
        outcome(r) == spec_text_at(value@, path_view(path@), missing@, invalid@),
{
    let v = get_path(value, path, missing)?;
    match v.as_str() {
        Some(s) => Ok(s.to_owned()),
        None => Err(format_error(invalid)),
    }
}

fn block_payload(data: &Json) -> (r: Result<Json, StargridError>)
    ensures
        outcome(r) == spec_block_payload(data@),
{
    let data_path = ["result", "data"];
    assert(path_view(data_path@) =~= seq!["result"@, "data"@]);
    let data = get_path(data, &data_path, "Expected .result.data")?;
    let is_block = match data.get("type") {
        Some(t) => t.is_text("tendermint/event/NewBlock"),
        None => false,
    };
    if !is_block {
        return Err(format_error("Expected NewBlock event"));
    }
    Ok(data)
}

fn tx_payload(data: &Json) -> (r: Result<Json, StargridError>)
    ensures
        outcome(r) == spec_tx_payload(data@),
{
    let data_path = ["result", "data"];
    assert(path_view(data_path@) =~= seq!["result"@, "data"@]);
    let data = get_path(data, &data_path, "Expected .result.data")?;
    let is_tx = match data.get("type") {
        Some(t) => t.is_text("tendermint/event/Tx"),
        None => false,
    };
    if !is_tx {
        return Err(format_error("Expected Tx event"));
    }
    let result_path = ["value", "TxResult"];
    assert(path_view(result_path@) =~= seq!["value"@, "TxResult"@]);
    get_path(&data, &result_path, "Expected .result.data.value.TxResult")
}

/// The hash of a transaction: the SHA-256 digest of its base64-decoded bytes, in
/// uppercase hexadecimal.
pub fn get_tx_hash(bytes: &str) -> (r: Result<String, StargridError>)
    ensures
        outcome(r) == spec_tx_hash(bytes@),
        r matches Ok(h) ==> h@.len() == 64 && forall|i: int|
            0 <= i < h@.len() ==> is_upper_hex(#[trigger] h@[i]),
{
    match base64_decode(bytes) {
        None => Err(parse_error("Failed to decode tx bytes")),
        Some(decoded) => {
            let hex = sha256_digest(decoded);
            let upper = ascii_uppercase(hex.as_str());
            assert forall|i: int| 0 <= i < upper@.len() implies is_upper_hex(#[trigger] upper@[i]) by {
                assert(is_lower_hex(hex@[i]));
            }
            Ok(upper)
        },
    }
}

fn get_block_height(payload: &Json) -> (r: Result<[u64; 4], StargridError>)
    ensures
        match r {
            Ok(h) => spec_block_height(payload@) == Ok::<nat, ErrorView>(limbs_value(h@)),
            Err(e) => spec_block_height(payload@) == Err::<nat, ErrorView>(e@),
        },
{
    let path = ["value", "block", "header", "height"];
    assert(path_view(path@) =~= seq!["value"@, "block"@, "header"@, "height"@]);
    let height = text_at(
        payload,
        &path,
        "Missing block height",
        "Invalid block height",
    )?;
    match u256_from_dec_str(height.as_str()) {
        Ok(v) => Ok(v),
        Err(_) => Err(parse_error("Failed to parse block height")),
    }
}

fn get_tx_height(payload: &Json) -> (r: Result<[u64; 4], StargridError>)
    ensures
        match r {
            Ok(h) => spec_tx_height(payload@) == Ok::<nat, ErrorView>(limbs_value(h@)),
            Err(e) => spec_tx_height(payload@) == Err::<nat, ErrorView>(e@),
        },
{
    let text = match payload.get("height") {
        Some(h) => h.as_str(),
        None => None,
    };
    match text {
        None => Err(format_error("Invalid tx height")),
        Some(s) => match u256_from_dec_str(s) {
            Ok(v) => Ok(v),
            Err(err) => {
                let mut msg = "Failed to parse tx height: ".to_owned();
                msg.append(err.as_str());
                Err(StargridError::ParseError(msg))
            },
        },
    }
}

fn get_block_hash(payload: &Json) -> (r: Result<String, StargridError>)
    ensures
        outcome(r) == spec_block_hash(payload@),
{
    let path = ["value", "block", "header", "app_hash"];
    assert(path_view(path@) =~= seq!["value"@, "block"@, "header"@, "app_hash"@]);
    text_at(
        payload,
        &path,
        "Missing block hash",
        "Invalid block hash",
    )
}

fn get_chain_id(payload: &Json) -> (r: Result<String, StargridError>)
    ensures
        outcome(r) == spec_chain_id(payload@),
{
    let path = ["value", "block", "header", "chain_id"];
    assert(path_view(path@) =~= seq!["value"@, "block"@, "header"@, "chain_id"@]);
    text_at(
        payload,
        &path,
        "Missing chain ID",
        "Invalid chain ID",
    )
}

fn get_block_timestamp(payload: &Json) -> (r: Result<i128, StargridError>)
    ensures
        match r {
            Ok(t) => spec_block_time(payload@) == Ok::<int, ErrorView>(t as int),
            Err(e) => spec_block_time(payload@) == Err::<int, ErrorView>(e@),
        },
{
    let path = ["value", "block", "header", "time"];
    assert(path_view(path@) =~= seq!["value"@, "block"@, "header"@, "time"@]);
    let timestamp = text_at(
        payload,
        &path,
        "Missing block timestamp",
        "Invalid block timestamp",
    )?;
    match parse_timestamp(timestamp.as_str()) {
        Some(t) => Ok(t),
        None => Err(parse_error("Failed to parse block timestamp")),
    }
}

fn get_tx_error(payload: &Json) -> (r: Result<Option<TxError>, StargridError>)
    ensures
        match r {
            Ok(Some(e)) => spec_tx_error(payload@) == Ok::<Option<TxErrorView>, ErrorView>(Some(e@)),
            Ok(None) => spec_tx_error(payload@) == Ok::<Option<TxErrorView>, ErrorView>(None),
            Err(e) => spec_tx_error(payload@) == Err::<Option<TxErrorView>, ErrorView>(e@),
        },
{
    let code_path = ["result", "code"];
    assert(path_view(code_path@) =~= seq!["result"@, "code"@]);
    let code = try_get_path(payload, &code_path);
    if code.is_null() {
        return Ok(None);
    }
    let code = match code.as_u64() {
        Some(c) => c,
        None => return Err(format_error("Invalid tx error code")),
    };
    let codespace_path = ["result", "codespace"];
    assert(path_view(codespace_path@) =~= seq!["result"@, "codespace"@]);
    let codespace = try_get_path(payload, &codespace_path);
    let codespace = match codespace.as_str() {
        Some(s) => s.to_owned(),
        None => return Err(format_error("Invalid tx error codespace")),
    };
    let log_path = ["result", "log"];
    assert(path_view(log_path@) =~= seq!["result"@, "log"@]);
    let message = try_get_path(payload, &log_path);
    let message = match message.as_str() {
        Some(s) => s.to_owned(),
        None => return Err(format_error("Invalid tx error message")),
    };
    Ok(Some(TxError { code, codespace, message }))
}

/// Sets the attribute `key` to `value`, in place of an attribute of that name.
fn insert_attribute(attrs: &mut Vec<(String, AttributeValue)>, key: String, value: AttributeValue)
    ensures
        attributes_view(final(attrs)@) == insert_pair(attributes_view(old(attrs)@), key@, value@),
{
    let ghost before = attributes_view(attrs@);
    let n = attrs.len();
    let mut i: usize = 0;
    while i < n
        invariant
            n == attrs.len(),
            attrs@ == old(attrs)@,
            before == attributes_view(attrs@),
            i <= n,
            forall|j: int| 0 <= j < i ==> (#[trigger] before[j]).0 != key@,
        decreases n - i,
    {
        assert(before[i as int] == (attrs@[i as int].0@, attrs@[i as int].1@));
        if attrs[i].0 == key {
            proof {
                lemma_insert_pair_found(before, key@, value@, i as int);
            }
            let ghost kv = key@;
            let ghost vv = value@;
            attrs.set(i, (key, value));
            assert(attributes_view(attrs@) =~= before.update(i as int, (kv, vv)));
            assert(attributes_view(attrs@) == insert_pair(before, kv, vv));
            return ;
        }
        i = i + 1;
    }
    proof {
        lemma_insert_pair_new(before, key@, value@);
    }
    let ghost kv = key@;
    let ghost vv = value@;
    attrs.push((key, value));
    assert(attributes_view(attrs@) =~= before.push((kv, vv)));
}

pub proof fn lemma_attributes_err_extends(items: Seq<JsonValue>, k: int, m: int)
    requires
        0 <= k <= m <= items.len(),
        spec_collect_attributes(items.take(k)) is Err,
    ensures
        spec_collect_attributes(items.take(m)) == spec_collect_attributes(items.take(k)),
    decreases m - k,
{
    if m > k {
        lemma_attributes_err_extends(items, k, m - 1);
        assert(items.take(m).drop_last() =~= items.take(m - 1));
    }
}

pub proof fn lemma_events_err_extends(items: Seq<JsonValue>, k: int, m: int)
    requires
        0 <= k <= m <= items.len(),
        spec_collect_events(items.take(k)) is Err,
    ensures
        spec_collect_events(items.take(m)) == spec_collect_events(items.take(k)),
    decreases m - k,
{
    if m > k {
        lemma_events_err_extends(items, k, m - 1);
        assert(items.take(m).drop_last() =~= items.take(m - 1));
    }
}

fn parse_attributes(attrs: &Json) -> (r: Result<Vec<(String, AttributeValue)>, StargridError>)
    ensures
        match r {
            Ok(a) => spec_parse_attributes(attrs@) == Ok::<
                Seq<(Seq<char>, AttributeView)>,
                ErrorView,
            >(attributes_view(a@)),
            Err(e) => spec_parse_attributes(attrs@) == Err::<
                Seq<(Seq<char>, AttributeView)>,
                ErrorView,
            >(e@),
        },
{
    let mut mapping: Vec<(String, AttributeValue)> = Vec::new();
    let items = match attrs.as_array() {
        Some(items) => items,
        None => return Err(format_error("Invalid attributes")),
    };
    let ghost vs = attrs@->Array_0;
    let n = items.len();
    assert(vs.take(0) =~= Seq::<JsonValue>::empty());
    assert(attributes_view(mapping@) =~= Seq::<(Seq<char>, AttributeView)>::empty());
    for i in 0..n
        invariant
            n == items.len(),
            attrs@ is Array,
            vs == attrs@->Array_0,
            vs.len() == n,
            forall|j: int| 0 <= j < n ==> #[trigger] vs[j] == items@[j]@,
            spec_collect_attributes(vs.take(i as int)) == Ok::<
                Seq<(Seq<char>, AttributeView)>,
                ErrorView,
            >(attributes_view(mapping@)),
    {
        let elem = &items[i];
        proof {
            assert(vs.take(i + 1).drop_last() =~= vs.take(i as int));
            assert(vs.take(i + 1).last() == elem@);
        }
        let key = match elem.get("key") {
            Some(k) => k.as_str(),
            None => None,
        };
        let key = match key {
            Some(k) => k.to_owned(),
            None => {
                proof {
                    lemma_attributes_err_extends(vs, i + 1, n as int);
                    assert(vs.take(n as int) =~= vs);
                }
                return Err(format_error("Invalid attribute key"));
            },
        };
        let value = elem.field_value("value");
        let indexed = match elem.get("index") {
            Some(b) => match b.as_bool() {
                Some(b) => b,
                None => false,
            },
            None => false,
        };
        insert_attribute(&mut mapping, key, AttributeValue { indexed, value });
    }
    assert(vs.take(n as int) =~= vs);
    Ok(mapping)
}

fn parse_event(event: &Json) -> (r: Result<Event, StargridError>)
    ensures
        outcome(r) == spec_parse_event(event@),
{
    let name = match event.get("type") {
        Some(t) => t.as_str(),
        None => None,
    };
    let attrs = match event.get("attributes") {
        Some(a) => if a.is_array() {
            Some(a)
        } else {
            None
        },
        None => None,
    };
    match (name, attrs) {
        (Some(name), Some(attrs)) => {
            let attributes = parse_attributes(attrs)?;
            Ok(Event { name: name.to_owned(), attributes })
        },
        _ => Err(format_error("Invalid event format")),
    }
}

fn parse_events(events: &Json) -> (r: Result<Vec<Event>, StargridError>)
    ensures
        match r {
            Ok(v) => spec_parse_events(events@) == Ok::<Seq<EventView>, ErrorView>(
                events_view(v@),
            ),
            Err(e) => spec_parse_events(events@) == Err::<Seq<EventView>, ErrorView>(e@),
        },
{
    let items = match events.as_array() {
        Some(items) => items,
        None => return Err(format_error("Invalid events")),
    };
    let ghost vs = events@->Array_0;
    let n = items.len();
    let mut result: Vec<Event> = Vec::new();
    assert(vs.take(0) =~= Seq::<JsonValue>::empty());
    assert(events_view(result@) =~= Seq::<EventView>::empty());
    for i in 0..n
        invariant
            n == items.len(),
            events@ is Array,
            vs == events@->Array_0,
            vs.len() == n,
            forall|j: int| 0 <= j < n ==> #[trigger] vs[j] == items@[j]@,
            spec_collect_events(vs.take(i as int)) == Ok::<Seq<EventView>, ErrorView>(
                events_view(result@),
            ),
    {
        proof {
            assert(vs.take(i + 1).drop_last() =~= vs.take(i as int));
            assert(vs.take(i + 1).last() == items@[i as int]@);
        }
        match parse_event(&items[i]) {
            Ok(ev) => {
                let ghost before = result@;
                result.push(ev);
                assert(events_view(result@) =~= events_view(before).push(ev@));
            },
            Err(e) => {
                proof {
                    lemma_events_err_extends(vs, i + 1, n as int);
                    assert(vs.take(n as int) =~= vs);
                }
                return Err(e);
            },
        }
    }
    assert(vs.take(n as int) =~= vs);
    Ok(result)
}

/// Reads a new-block notification of the node (a JSON-RPC message with id 1).
pub fn parse_block(data: &Json) -> (r: Result<Block, StargridError>)
    ensures
        outcome(r) == spec_parse_block(data@),
{
    validate_jsonrpc(data)?;
    let id = match data.get("id") {
        Some(v) => v.as_u64(),
        None => None,
    };
    if id != Some(SUB_ID_BLOCK) {
        let got = data.field_value("id");
        return Err(
            StargridError::unexpected_value(
                option_u64_debug_text(Some(SUB_ID_BLOCK)),
                json_debug_text(&got),
            ),
        );
    }
    let payload = block_payload(data)?;

    let begin_path = ["value", "result_begin_block"];
    assert(path_view(begin_path@) =~= seq!["value"@, "result_begin_block"@]);
    let result_begin_block = get_path(&payload, &begin_path, "Missing result_begin_block")?;
    let end_path = ["value", "result_end_block"];
    assert(path_view(end_path@) =~= seq!["value"@, "result_end_block"@]);
    let result_end_block = get_path(&payload, &end_path, "Missing result_end_block")?;

    let block_begin_events = parse_events(&result_begin_block.field_value("events"))?;
    let block_end_events = parse_events(&result_end_block.field_value("events"))?;
    let mut events = block_begin_events;
    let mut rest = block_end_events;
    let ghost begin_view = events_view(events@);
    let ghost end_view = events_view(rest@);
    events.append(&mut rest);
    assert(events_view(events@) =~= begin_view + end_view);

    let height = get_block_height(&payload)?;
    let hash = get_block_hash(&payload)?;
    let chain_id = get_chain_id(&payload)?;
    let time = get_block_timestamp(&payload)?;
    Ok(Block { raw: payload, height, hash, chain_id, time, events })
}

/// Reads a transaction notification of the node (a JSON-RPC message with id 2).
pub fn parse_tx(data: &Json) -> (r: Result<Tx, StargridError>)
    ensures
        outcome(r) == spec_parse_tx(data@),
{
    validate_jsonrpc(data)?;
    let id = match data.get("id") {
        Some(v) => v.as_u64(),
        None => None,
    };
    if id != Some(SUB_ID_TX) {
        return Err(
            StargridError::unexpected_value(
                option_u64_debug_text(Some(SUB_ID_TX)),
                option_u64_debug_text(id),
            ),
        );
    }
    let payload = tx_payload(data)?;
    let tx = match payload.get("tx") {
        Some(t) => t.as_str(),
        None => None,
    };
    let tx = match tx {
        Some(t) => t.to_owned(),
        None => return Err(format_error("Missing tx bytes")),
    };
    let txhash = get_tx_hash(tx.as_str())?;

    let events_path = ["result", "events"];
    assert(path_view(events_path@) =~= seq!["result"@, "events"@]);
    let events = parse_events(&get_path(&payload, &events_path, "Missing events")?)?;

    let error = get_tx_error(&payload)?;
    let height = get_tx_height(&payload)?;
    Ok(Tx { raw: payload, error, height, tx, txhash, events })
}

/// A block is read only from a JSON-RPC 2.0 message under the block id, and its
/// events are those of the block's beginning followed by those of its end.
pub proof fn law_block_needs_block_id(data: JsonValue)
    ensures
        spec_parse_block(data) is Ok ==> spec_validate_jsonrpc(data) is Ok && data.field(
            "id"@,
        ).as_u64() == Some(SUB_ID_BLOCK),
        spec_parse_block(data) matches Ok(b) ==> exists|begin: Seq<EventView>, end: Seq<EventView>|
            b.events == begin + end && spec_parse_events(
                data.at_path(seq!["result"@, "data"@, "value"@, "result_begin_block"@, "events"@]),
            ) == Ok::<Seq<EventView>, ErrorView>(begin) && spec_parse_events(
                data.at_path(seq!["result"@, "data"@, "value"@, "result_end_block"@, "events"@]),
            ) == Ok::<Seq<EventView>, ErrorView>(end),
{
    if let Ok(b) = spec_parse_block(data) {
        let payload = data.at_path(seq!["result"@, "data"@]);
        let begin = payload.at_path(seq!["value"@, "result_begin_block"@]);
        let end = payload.at_path(seq!["value"@, "result_end_block"@]);
        lemma_path_concat(data, seq!["result"@, "data"@], seq!["value"@, "result_begin_block"@, "events"@]);
        lemma_path_concat(payload, seq!["value"@, "result_begin_block"@], seq!["events"@]);
        lemma_path_concat(data, seq!["result"@, "data"@], seq!["value"@, "result_end_block"@, "events"@]);
        lemma_path_concat(payload, seq!["value"@, "result_end_block"@], seq!["events"@]);
        assert(seq!["result"@, "data"@] + seq!["value"@, "result_begin_block"@, "events"@] =~= seq![
            "result"@,
            "data"@,
            "value"@,
            "result_begin_block"@,
            "events"@,
        ]);
        assert(seq!["value"@, "result_begin_block"@] + seq!["events"@] =~= seq![
            "value"@,
            "result_begin_block"@,
            "events"@,
        ]);
        assert(seq!["result"@, "data"@] + seq!["value"@, "result_end_block"@, "events"@] =~= seq![
            "result"@,
            "data"@,
            "value"@,
            "result_end_block"@,
            "events"@,
        ]);
        assert(seq!["value"@, "result_end_block"@] + seq!["events"@] =~= seq![
            "value"@,
            "result_end_block"@,
            "events"@,
        ]);
        assert(seq!["events"@].drop_first() =~= Seq::<Seq<char>>::empty());
        assert(begin.at_path(seq!["events"@]) == begin.field("events"@).at_path(seq!["events"@].drop_first()));
        assert(end.at_path(seq!["events"@]) == end.field("events"@).at_path(seq!["events"@].drop_first()));
        let be = spec_parse_events(begin.field("events"@))->Ok_0;
        let ee = spec_parse_events(end.field("events"@))->Ok_0;
        assert(b.events == be + ee);
        assert(spec_parse_events(
            data.at_path(seq!["result"@, "data"@, "value"@, "result_begin_block"@, "events"@]),
        ) == Ok::<Seq<EventView>, ErrorView>(be));
        assert(spec_parse_events(
            data.at_path(seq!["result"@, "data"@, "value"@, "result_end_block"@, "events"@]),
        ) == Ok::<Seq<EventView>, ErrorView>(ee));
    }
}

/// Indexing by a path and then by another is indexing by the two joined.
pub proof fn lemma_path_concat(v: JsonValue, p: Seq<Seq<char>>, q: Seq<Seq<char>>)
    ensures
        v.at_path(p + q) == v.at_path(p).at_path(q),
    decreases p.len(),
{
    if p.len() > 0 {
        lemma_path_concat(v.field(p[0]), p.drop_first(), q);
        assert((p + q).drop_first() =~= p.drop_first() + q);
    } else {
        assert(p + q =~= q);
    }
}

/// A transaction is read only from a JSON-RPC 2.0 message under the transaction id.
pub proof fn law_tx_needs_tx_id(data: JsonValue)
    ensures
        spec_parse_tx(data) is Ok ==> spec_validate_jsonrpc(data) is Ok && data.field("id"@).as_u64()
            == Some(SUB_ID_TX),
{
}

/// Whether no key occurs twice among the pairs.
pub open spec fn keys_distinct<K, V>(s: Seq<(K, V)>) -> bool {
    forall|i: int, j: int| 0 <= i < j < s.len() ==> (#[trigger] s[i]).0 != (#[trigger] s[j]).0
}

/// Setting a key keeps the keys distinct, holds the new value under the key, and
/// leaves the pairs of the other keys as they were.
pub proof fn law_insert_pair<K, V>(s: Seq<(K, V)>, k: K, v: V)
    requires
        keys_distinct(s),
    ensures
        keys_distinct(insert_pair(s, k, v)),
        insert_pair(s, k, v).contains((k, v)),
        forall|i: int| 0 <= i < s.len() && (#[trigger] s[i]).0 != k ==> insert_pair(s, k, v).contains(s[i]),
        forall|i: int| 0 <= i < insert_pair(s, k, v).len() && (#[trigger] insert_pair(s, k, v)[i]).0 != k
            ==> s.contains(insert_pair(s, k, v)[i]),
{
    if exists|j: int| 0 <= j < s.len() && s[j].0 == k {
        let j = choose|j: int| 0 <= j < s.len() && s[j].0 == k;
        assert forall|i: int| 0 <= i < j implies s[i].0 != k by {
            assert(s[i].0 != s[j].0);
        }
        lemma_insert_pair_found(s, k, v, j);
        let t = s.update(j, (k, v));
        assert(t[j] == (k, v));
        assert forall|a: int, b: int| 0 <= a < b < t.len() implies (#[trigger] t[a]).0 != (#[trigger] t[b]).0 by {
            if a == j {
                assert(s[b].0 != s[j].0);
            } else if b == j {
                assert(s[a].0 != s[j].0);
            } else {
                assert(s[a].0 != s[b].0);
            }
        }
        assert forall|i: int| 0 <= i < s.len() && (#[trigger] s[i]).0 != k implies t.contains(s[i]) by {
            assert(t[i] == s[i]);
        }
        assert forall|i: int| 0 <= i < t.len() && (#[trigger] t[i]).0 != k implies s.contains(t[i]) by {
            assert(t[i] == s[i]);
        }
    } else {
        lemma_insert_pair_new(s, k, v);
        let t = s.push((k, v));
        assert(t[s.len() as int] == (k, v));
        assert forall|i: int| 0 <= i < s.len() && (#[trigger] s[i]).0 != k implies t.contains(s[i]) by {
            assert(t[i] == s[i]);
        }
        assert forall|i: int| 0 <= i < t.len() && (#[trigger] t[i]).0 != k implies s.contains(t[i]) by {
            assert(t[i] == s[i]);
        }
    }
}

/// The attributes read from a list have distinct names, and each name holds the
/// value of the last element that names it.
pub proof fn law_attributes_keys_distinct(items: Seq<JsonValue>)
    ensures
        spec_collect_attributes(items) matches Ok(attrs) ==> keys_distinct(attrs),
        spec_collect_attributes(items) matches Ok(attrs) ==> items.len() > 0 ==> attrs.contains(
            spec_attribute_entry(items.last())->Ok_0,
        ),
    decreases items.len(),
{
    if items.len() > 0 {
        law_attributes_keys_distinct(items.drop_last());
        if let Ok(attrs) = spec_collect_attributes(items) {
            let prev = spec_collect_attributes(items.drop_last())->Ok_0;
            let entry = spec_attribute_entry(items.last())->Ok_0;
            law_insert_pair(prev, entry.0, entry.1);
        }
    }
}

/// Reading a list of events keeps every element, in order: the list reads
/// exactly when each element reads as an event, and then the i-th event is what
/// the i-th element reads as.
pub proof fn law_events_one_per_element(items: Seq<JsonValue>)
    ensures
        spec_collect_events(items) is Ok <==> forall|i: int|
            0 <= i < items.len() ==> spec_parse_event(#[trigger] items[i]) is Ok,
        spec_collect_events(items) matches Ok(evs) ==> evs.len() == items.len() && forall|i: int|
            0 <= i < items.len() ==> spec_parse_event(#[trigger] items[i]) == Ok::<
                EventView,
                ErrorView,
            >(evs[i]),
    decreases items.len(),
{
    if items.len() > 0 {
        let rest = items.drop_last();
        law_events_one_per_element(rest);
        assert forall|i: int| 0 <= i < rest.len() implies rest[i] == items[i] by {}
        if forall|i: int| 0 <= i < items.len() ==> spec_parse_event(#[trigger] items[i]) is Ok {
            assert forall|i: int| 0 <= i < rest.len() implies spec_parse_event(
                #[trigger] rest[i],
            ) is Ok by {
                assert(rest[i] == items[i]);
            }
            assert(spec_parse_event(items[items.len() - 1]) is Ok);
        }
        if spec_collect_events(items) is Ok {
            let evs = spec_collect_events(items)->Ok_0;
            let prev = spec_collect_events(rest)->Ok_0;
            assert(evs == prev.push(spec_parse_event(items.last())->Ok_0));
            assert forall|i: int| 0 <= i < items.len() implies spec_parse_event(
                #[trigger] items[i],
            ) == Ok::<EventView, ErrorView>(evs[i]) by {
                if i < rest.len() {
                    assert(rest[i] == items[i]);
                    assert(spec_parse_event(rest[i]) == Ok::<EventView, ErrorView>(prev[i]));
                }
            }
        }
    }
}

/// The events of a notification's event list, one per element and in order.
pub proof fn law_parse_events_elementwise(events: JsonValue)
    ensures
        spec_parse_events(events) matches Ok(evs) ==> events matches JsonValue::Array(items)
            && evs.len() == items.len() && forall|i: int|
            0 <= i < items.len() ==> spec_parse_event(#[trigger] items[i]) == Ok::<
                EventView,
                ErrorView,
            >(evs[i]),
{
    if let JsonValue::Array(items) = events {
        law_events_one_per_element(items);
    }
}

/// A transaction read from a notification carries one event per element of its
/// `result.events` list, in order.
pub proof fn law_tx_keeps_every_event(data: JsonValue)
    ensures
        spec_parse_tx(data) matches Ok(t) ==> t.raw.at_path(seq!["result"@, "events"@]) matches JsonValue::Array(items)
            && t.events.len() == items.len() && forall|i: int|
            0 <= i < items.len() ==> spec_parse_event(#[trigger] items[i]) == Ok::<
                EventView,
                ErrorView,
            >(t.events[i]),
{
    if let Ok(t) = spec_parse_tx(data) {
        law_parse_events_elementwise(t.raw.at_path(seq!["result"@, "events"@]));
    }
}

/// A block read from a notification carries the events of its begin-block list
/// and then those of its end-block list, one per element and in order.
pub proof fn law_block_keeps_every_event(data: JsonValue)
    ensures
        spec_parse_block(data) matches Ok(b) ==> b.raw.at_path(
            seq!["value"@, "result_begin_block"@, "events"@],
        ) matches JsonValue::Array(begin) && b.raw.at_path(
            seq!["value"@, "result_end_block"@, "events"@],
        ) matches JsonValue::Array(end) && b.events.len() == begin.len() + end.len() && (forall|i: int|
            0 <= i < begin.len() ==> spec_parse_event(#[trigger] begin[i]) == Ok::<
                EventView,
                ErrorView,
            >(b.events[i])) && forall|i: int|
            0 <= i < end.len() ==> spec_parse_event(#[trigger] end[i]) == Ok::<EventView, ErrorView>(
                b.events[begin.len() + i],
            ),
{
    if let Ok(b) = spec_parse_block(data) {
        let payload = b.raw;
        let bp = seq!["value"@, "result_begin_block"@];
        let ep = seq!["value"@, "result_end_block"@];
        let ev = seq!["events"@];
        lemma_path_concat(payload, bp, ev);
        lemma_path_concat(payload, ep, ev);
        assert(bp + ev =~= seq!["value"@, "result_begin_block"@, "events"@]);
        assert(ep + ev =~= seq!["value"@, "result_end_block"@, "events"@]);
        assert(payload.at_path(bp).at_path(ev) == payload.at_path(bp).field("events"@).at_path(
            Seq::empty(),
        )) by {
            assert(ev.drop_first() =~= Seq::<Seq<char>>::empty());
        }
        assert(payload.at_path(ep).at_path(ev) == payload.at_path(ep).field("events"@).at_path(
            Seq::empty(),
        )) by {
            assert(ev.drop_first() =~= Seq::<Seq<char>>::empty());
        }
        law_parse_events_elementwise(payload.at_path(bp).field("events"@));
        law_parse_events_elementwise(payload.at_path(ep).field("events"@));
    }
}

/// An element of an attribute list reads when it has a string `key`; the
/// attribute is named by that key, holds the element's `value` member, and is
/// indexed exactly when its `index` member is `true` (`false` where there is
/// none, or where it is no boolean).
pub proof fn law_attribute_entry_reads_fields(elem: JsonValue)
    ensures
        spec_attribute_entry(elem) is Ok <==> elem.field("key"@) is Str,
        spec_attribute_entry(elem) matches Ok(e) ==> elem.field("key"@) == JsonValue::Str(e.0)
            && e.1.value == elem.field("value"@) && e.1.indexed == (elem.field("index"@)
            == JsonValue::Bool(true)),
{
}

/// Every element of an attribute list gives an attribute under its key: no
/// element is dropped.
pub proof fn law_every_element_gives_an_attribute(items: Seq<JsonValue>)
    ensures
        spec_collect_attributes(items) matches Ok(attrs) ==> forall|i: int|
            0 <= i < items.len() ==> exists|j: int|
                0 <= j < attrs.len() && (#[trigger] attrs[j]).0 == spec_attribute_entry(
                    #[trigger] items[i],
                )->Ok_0.0,
    decreases items.len(),
{
    if items.len() > 0 {
        let rest = items.drop_last();
        law_every_element_gives_an_attribute(rest);
        law_attributes_keys_distinct(rest);
        if let Ok(attrs) = spec_collect_attributes(items) {
            let prev = spec_collect_attributes(rest)->Ok_0;
            let e = spec_attribute_entry(items.last())->Ok_0;
            let last = items.len() - 1;
            assert(attrs == insert_pair(prev, e.0, e.1));
            law_insert_pair(prev, e.0, e.1);
            let kk = choose|kk: int| 0 <= kk < attrs.len() && attrs[kk] == (e.0, e.1);
            assert forall|i: int| 0 <= i < items.len() implies exists|j: int|
                0 <= j < attrs.len() && (#[trigger] attrs[j]).0 == spec_attribute_entry(
                    #[trigger] items[i],
                )->Ok_0.0 by {
                if i == last {
                    assert(attrs[kk].0 == spec_attribute_entry(items[i])->Ok_0.0);
                } else {
                    assert(rest[i] == items[i]);
                    let m = choose|m: int|
                        0 <= m < prev.len() && (#[trigger] prev[m]).0 == spec_attribute_entry(
                            #[trigger] rest[i],
                        )->Ok_0.0;
                    if prev[m].0 == e.0 {
                        assert(attrs[kk].0 == spec_attribute_entry(items[i])->Ok_0.0);
                    } else {
                        assert(attrs.contains(prev[m]));
                        let j = choose|j: int| 0 <= j < attrs.len() && attrs[j] == prev[m];
                        assert(attrs[j].0 == spec_attribute_entry(items[i])->Ok_0.0);
                    }
                }
            }
        }
    }
}

/// Whether `a` is what element `i` of the list gives, and no later element
/// names its key.
pub open spec fn given_by_last_naming(items: Seq<JsonValue>, i: int, a: (Seq<char>, AttributeView)) -> bool {
    &&& 0 <= i < items.len()
    &&& spec_attribute_entry(items[i]) == Ok::<(Seq<char>, AttributeView), ErrorView>(a)
    &&& forall|l: int| i < l < items.len() ==> spec_attribute_entry(#[trigger] items[l])->Ok_0.0 != a.0
}

/// Whether some element of the list gives `a` with no later element naming its key.
pub open spec fn has_last_naming_source(items: Seq<JsonValue>, a: (Seq<char>, AttributeView)) -> bool {
    exists|i: int| #[trigger] given_by_last_naming(items, i, a)
}

/// Each attribute read from a list is what the last element naming its key
/// gives: its value, and its indexed flag, come from that element.
pub proof fn law_attribute_from_last_naming_element(items: Seq<JsonValue>)
    ensures
        spec_collect_attributes(items) matches Ok(attrs) ==> forall|j: int|
            0 <= j < attrs.len() ==> has_last_naming_source(items, #[trigger] attrs[j]),
    decreases items.len(),
{
    if items.len() > 0 {
        let rest = items.drop_last();
        law_attribute_from_last_naming_element(rest);
        law_attributes_keys_distinct(rest);
        if let Ok(attrs) = spec_collect_attributes(items) {
            let prev = spec_collect_attributes(rest)->Ok_0;
            let e = spec_attribute_entry(items.last())->Ok_0;
            let last = items.len() - 1;
            assert(attrs == insert_pair(prev, e.0, e.1));
            law_insert_pair(prev, e.0, e.1);
            let kk = choose|kk: int| 0 <= kk < attrs.len() && attrs[kk] == (e.0, e.1);
            assert forall|j: int| 0 <= j < attrs.len() implies has_last_naming_source(
                items,
                #[trigger] attrs[j],
            ) by {
                if attrs[j].0 == e.0 {
                    assert(attrs[j] == attrs[kk]);
                    assert(given_by_last_naming(items, last, attrs[j]));
                } else {
                    assert(prev.contains(attrs[j]));
                    let m = choose|m: int| 0 <= m < prev.len() && prev[m] == attrs[j];
                    assert(has_last_naming_source(rest, prev[m]));
                    let i = choose|i: int| #[trigger] given_by_last_naming(rest, i, prev[m]);
                    assert(rest[i] == items[i]);
                    assert forall|l: int| i < l < items.len() implies spec_attribute_entry(
                        #[trigger] items[l],
                    )->Ok_0.0 != attrs[j].0 by {
                        if l < last {
                            assert(rest[l] == items[l]);
                        }
                    }
                    assert(given_by_last_naming(items, i, attrs[j]));
                }
            }
        }
    }
}

/// An event is read from an element with a string `type` and a list of
/// `attributes`: it is named by the type and holds the attributes that list gives.
pub proof fn law_event_reads_type_and_attributes(event: JsonValue)
    ensures
        spec_parse_event(event) matches Ok(e) ==> event.field("type"@) == JsonValue::Str(e.name)
            && event.field("attributes"@) is Array && spec_parse_attributes(event.field("attributes"@))
            == Ok::<Seq<(Seq<char>, AttributeView)>, ErrorView>(e.attributes),
        !(event.field("type"@) is Str) ==> spec_parse_event(event) is Err,
{
}

} // verus!
