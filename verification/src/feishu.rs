use vstd::prelude::*;
use vstd::utf8::*;

use crate::channels::{ChatType, InboundMessage};
use crate::json::{
    as_text, get_member, int_member_bytes, int_member_json, json_quoted, quote_json, text_member,
    JsonValue, JsonView,
};
use crate::text::{concat2, fmt_i64, owned, signed_decimal_spec, parse_i64, parse_i64_spec, remove_all, remove_all_spec, str_eq, trim, trim_spec, views};

verus! {

// ---------------------------------------------------------------------------
// WebSocket frames (Feishu's pbbp2 protocol)
// ---------------------------------------------------------------------------

/// A frame header: a key and a value.
pub struct PbHeader {
    pub key: String,
    pub value: String,
}

/// The top-level WebSocket binary message.
pub struct PbFrame {
    pub seq_id: u64,
    pub log_id: u64,
    pub service: i32,
    pub method: i32,
    pub headers: Vec<PbHeader>,
    pub payload_encoding: Option<String>,
    pub payload_type: Option<String>,
    pub payload: Option<Vec<u8>>,
    pub log_id_new: Option<String>,
}

/// Frame type of control frames (pong, configuration updates).
pub const FRAME_TYPE_CONTROL: i32 = 0;

/// Frame type of data frames (events).
pub const FRAME_TYPE_DATA: i32 = 1;

/// The value of the first header named `key`.
pub open spec fn header_value(hs: Seq<PbHeader>, key: Seq<char>) -> Option<Seq<char>>
    decreases hs.len(),
{
    if hs.len() == 0 {
        None
    } else if hs[0].key@ == key {
        Some(hs[0].value@)
    } else {
        header_value(hs.drop_first(), key)
    }
}

/// A header value, or the empty text when the frame has no such header.
pub open spec fn header_or_empty(f: PbFrame, key: Seq<char>) -> Seq<char> {
    match header_value(f.headers@, key) {
        Some(v) => v,
        None => Seq::empty(),
    }
}

/// The optional payload as a byte sequence.
pub open spec fn payload_bytes(f: PbFrame) -> Option<Seq<u8>> {
    match f.payload {
        Some(p) => Some(p@),
        None => None,
    }
}

/// Two frames agree on every field but the payload.
pub open spec fn same_but_payload(a: PbFrame, b: PbFrame) -> bool {
    &&& a.seq_id == b.seq_id
    &&& a.log_id == b.log_id
    &&& a.service == b.service
    &&& a.method == b.method
    &&& a.headers@.len() == b.headers@.len()
    &&& forall|i: int|
        0 <= i < a.headers@.len() ==> (#[trigger] a.headers@[i]).key@ == b.headers@[i].key@
            && a.headers@[i].value@ == b.headers@[i].value@
    &&& opt_text(a.payload_encoding) == opt_text(b.payload_encoding)
    &&& opt_text(a.payload_type) == opt_text(b.payload_type)
    &&& opt_text(a.log_id_new) == opt_text(b.log_id_new)
}

/// The model of an optional string.
pub open spec fn opt_text(s: Option<String>) -> Option<Seq<char>> {
    match s {
        Some(t) => Some(t@),
        None => None,
    }
}

/// A copy of an optional string.
pub fn copy_opt(s: &Option<String>) -> (r: Option<String>)
    ensures
        opt_text(r) == opt_text(*s),
{
    match s {
        Some(t) => Some(t.clone()),
        None => None,
    }
}

/// The JSON text `{"code":200}` that acknowledges a data frame, as bytes.
pub open spec fn ack_payload() -> Seq<u8> {
    encode_utf8(int_member_json("code"@, 200))
}

impl PbFrame {
    /// The value of the first header named `key`.
    pub fn get_header(&self, key: &str) -> (r: Option<&str>)
        ensures
            match r {
                Some(v) => header_value(self.headers@, key@) == Some(v@),
                None => header_value(self.headers@, key@) is None,
            },
    {
        let ghost hs = self.headers@;
        let mut i: usize = 0;
        assert(hs.skip(0) =~= hs);
        while i < self.headers.len()
            invariant
                hs == self.headers@,
                i <= hs.len(),
                header_value(hs, key@) == header_value(hs.skip(i as int), key@),
            decreases hs.len() - i,
        {
            assert(hs.skip(i as int).drop_first() =~= hs.skip(i + 1));
            if str_eq(self.headers[i].key.as_str(), key) {
                return Some(self.headers[i].value.as_str());
            }
            i = i + 1;
        }
        None
    }

    /// This frame with its payload replaced by `payload`.
    pub fn with_payload(&self, payload: Vec<u8>) -> (r: PbFrame)
        ensures
            same_but_payload(r, *self),
            payload_bytes(r) == Some(payload@),
    {
        let mut headers: Vec<PbHeader> = Vec::new();
        let mut i: usize = 0;
        while i < self.headers.len()
            invariant
                i <= self.headers@.len(),
                headers@.len() == i,
                forall|j: int|
                    0 <= j < i ==> (#[trigger] headers@[j]).key@ == self.headers@[j].key@
                        && headers@[j].value@ == self.headers@[j].value@,
            decreases self.headers@.len() - i,
        {
            headers.push(
                PbHeader { key: self.headers[i].key.clone(), value: self.headers[i].value.clone() },
            );
            i = i + 1;
        }
        PbFrame {
            seq_id: self.seq_id,
            log_id: self.log_id,
            service: self.service,
            method: self.method,
            headers,
            payload_encoding: copy_opt(&self.payload_encoding),
            payload_type: copy_opt(&self.payload_type),
            payload: Some(payload),
            log_id_new: copy_opt(&self.log_id_new),
        }
    }
}

/// Decodes UTF-8 bytes (`std::str::from_utf8`): text exactly when the bytes
/// are valid UTF-8, and then the text that they encode.
#[verifier::external_body]
fn utf8_text(bytes: &[u8]) -> (r: Option<String>)
    ensures
        r is Some <==> valid_utf8(bytes@),
        r matches Some(s) ==> encode_utf8(s@) == bytes@,
{
    match std::str::from_utf8(bytes) {
        Ok(s) => Some(s.to_string()),
        Err(_) => None,
    }
}

/// What to do with a decoded frame.
pub enum FrameOutcome {
    /// A control frame (pong, configuration update), with its `type` header.
    Control { kind: String },
    /// A data frame without a payload: nothing to answer.
    EmptyPayload,
    /// An event frame whose payload is not UTF-8: the frame is rejected and
    /// not acknowledged.
    BadPayload,
    /// A data frame to acknowledge with `ack`; `event` holds the JSON text of
    /// its payload when the frame carries an event.
    Acknowledge { event: Option<String>, ack: PbFrame },
    /// A frame of an unknown type, ignored.
    Ignored,
}

/// How a frame is handled: control frames are noted, data frames are
/// acknowledged by the same frame with payload `{"code":200}` (and an
/// `event` payload is handed on for processing), other frames are ignored.
pub fn handle_frame(frame: &PbFrame) -> (r: FrameOutcome)
    ensures
        frame.method == FRAME_TYPE_CONTROL ==> (r matches FrameOutcome::Control { kind } && kind@
            == header_or_empty(*frame, "type"@)),
        frame.method != FRAME_TYPE_CONTROL && frame.method != FRAME_TYPE_DATA ==> r
            is Ignored,
        frame.method == FRAME_TYPE_DATA ==> match payload_bytes(*frame) {
            None => r is EmptyPayload,
            Some(p) => if p.len() == 0 {
                r is EmptyPayload
            } else if header_or_empty(*frame, "type"@) == "event"@ {
                if valid_utf8(p) {
                    r matches FrameOutcome::Acknowledge { event, ack } && (event matches Some(e)
                        && encode_utf8(e@) == p) && same_but_payload(ack, *frame) && payload_bytes(
                        ack,
                    ) == Some(ack_payload())
                } else {
                    r is BadPayload
                }
            } else {
                r matches FrameOutcome::Acknowledge { event, ack } && event is None
                    && same_but_payload(ack, *frame) && payload_bytes(ack) == Some(ack_payload())
            },
        },
{
    if frame.method == FRAME_TYPE_CONTROL {
        let kind = match frame.get_header("type") {
            Some(k) => k.to_owned(),
            None => String::new(),
        };
        return FrameOutcome::Control { kind };
    }
    if frame.method != FRAME_TYPE_DATA {
        return FrameOutcome::Ignored;
    }
    proof {
        reveal_strlit("event");
        assert("event"@.len() == 5);
    }
    let is_event = match frame.get_header("type") {
        Some(k) => str_eq(k, "event"),
        None => false,
    };
    match &frame.payload {
        None => FrameOutcome::EmptyPayload,
        Some(p) => {
            if p.len() == 0 {
                return FrameOutcome::EmptyPayload;
            }
            let event = if is_event {
                match utf8_text(p.as_slice()) {
                    Some(t) => Some(t),
                    None => {
                        return FrameOutcome::BadPayload;
                    },
                }
            } else {
                None
            };
            let ack_bytes = int_member_bytes("code", 200);
            let ack = frame.with_payload(ack_bytes);
            FrameOutcome::Acknowledge { event, ack }
        },
    }
}

// ---------------------------------------------------------------------------
// The WebSocket event loop
// ---------------------------------------------------------------------------

/// Seconds to wait before reconnecting after the connection is lost.
pub const RECONNECT_DELAY_SECS: u64 = 3;

/// What happened next on the event loop.
pub enum SocketEvent {
    /// The shutdown signal changed; `stop` is its new value.
    Shutdown { stop: bool },
    /// A binary message (a frame) arrived.
    Binary,
    /// A text message arrived (not expected from Feishu).
    Text,
    /// A ping arrived (the socket answers it by itself).
    Ping,
    /// The server closed the connection.
    Closed,
    /// Reading from the socket failed.
    Failed,
    /// The stream of messages ended.
    Ended,
    /// Any other message.
    Other,
}

/// What the event loop does about an event.
pub enum LoopAction {
    /// Return: the channel is shutting down.
    Stop,
    /// Decode and handle the frame, sending back the acknowledgement if any.
    HandleFrame,
    /// Nothing; wait for the next event.
    Continue,
    /// Drop the connection and connect again after `RECONNECT_DELAY_SECS`.
    Reconnect,
}

/// The event loop's decision for one event: stop on a shutdown signal set to
/// true, handle binary frames, reconnect when the connection is closed, fails
/// or ends, and otherwise go on.
pub fn next_action(event: &SocketEvent) -> (a: LoopAction)
    ensures
        match event {
            SocketEvent::Shutdown { stop } => if *stop {
                a is Stop
            } else {
                a is Continue
            },
            SocketEvent::Binary => a is HandleFrame,
            SocketEvent::Closed | SocketEvent::Failed | SocketEvent::Ended => a is Reconnect,
            SocketEvent::Text | SocketEvent::Ping | SocketEvent::Other => a is Continue,
        },
{
    match event {
        SocketEvent::Shutdown { stop } => if *stop {
            LoopAction::Stop
        } else {
            LoopAction::Continue
        },
        SocketEvent::Binary => LoopAction::HandleFrame,
        SocketEvent::Closed | SocketEvent::Failed | SocketEvent::Ended => LoopAction::Reconnect,
        SocketEvent::Text | SocketEvent::Ping | SocketEvent::Other => LoopAction::Continue,
    }
}

// ---------------------------------------------------------------------------
// Message deduplication
// ---------------------------------------------------------------------------

/// How many message identifiers are remembered before the memory is reset.
pub const MAX_SEEN_IDS: usize = 10_000;

/// The identifiers of the messages already handled.
pub struct SeenIds {
    ids: Vec<String>,
}

impl SeenIds {
    /// The identifiers remembered.
    pub closed spec fn view(&self) -> Set<Seq<char>> {
        views(self.ids@).to_set()
    }

    /// Each identifier is held once, and at most `MAX_SEEN_IDS` of them.
    pub closed spec fn wf(&self) -> bool {
        &&& views(self.ids@).no_duplicates()
        &&& self.ids@.len() <= MAX_SEEN_IDS
    }

    /// Nothing remembered yet.
    pub fn new() -> (r: SeenIds)
        ensures
            r.wf(),
            r.view() == Set::<Seq<char>>::empty(),
    {
        let r = SeenIds { ids: Vec::new() };
        assert(views(r.ids@).to_set() =~= Set::<Seq<char>>::empty());
        r
    }

    /// How many identifiers are remembered.
    pub fn len(&self) -> (n: usize)
        requires
            self.wf(),
        ensures
            n as nat == self.view().len(),
    {
        proof {
            views(self.ids@).unique_seq_to_set();
        }
        self.ids.len()
    }

    /// Whether `id` was already seen.
    pub fn contains(&self, id: &str) -> (r: bool)
        ensures
            r == self.view().contains(id@),
    {
        let ghost vs = views(self.ids@);
        let mut i: usize = 0;
        while i < self.ids.len()
            invariant
                vs == views(self.ids@),
                i <= self.ids@.len(),
                forall|j: int| 0 <= j < i ==> vs[j] != id@,
            decreases self.ids@.len() - i,
        {
            if str_eq(self.ids[i].as_str(), id) {
                assert(vs.contains(vs[i as int]));
                return true;
            }
            i = i + 1;
        }
        assert(!vs.contains(id@));
        false
    }

    /// Remembers `id`; when that would exceed `MAX_SEEN_IDS` identifiers,
    /// everything is forgotten instead.
    pub fn record(&mut self, id: String)
        requires
            old(self).wf(),
            !old(self).view().contains(id@),
        ensures
            final(self).wf(),
            old(self).view().len() + 1 > MAX_SEEN_IDS ==> final(self).view() == Set::<
                Seq<char>,
            >::empty(),
            old(self).view().len() + 1 <= MAX_SEEN_IDS ==> final(self).view() == old(
                self,
            ).view().insert(id@),
    {
        let ghost before = views(self.ids@);
        proof {
            before.unique_seq_to_set();
        }
        self.ids.push(id);
        let ghost after = views(self.ids@);
        assert(after =~= before.push(id@));
        assert(after.no_duplicates()) by {
            assert forall|i: int, j: int|
                0 <= i < after.len() && 0 <= j < after.len() && i != j implies after[i]
                != after[j] by {
                if i == before.len() as int {
                    assert(before.contains(after[j]));
                } else if j == before.len() as int {
                    assert(before.contains(after[i]));
                }
            }
        }
        assert forall|x: Seq<char>| #[trigger] after.to_set().contains(x) == before.to_set().insert(
            id@,
        ).contains(x) by {
            assert(after.to_set().contains(x) == after.contains(x));
            assert(before.to_set().contains(x) == before.contains(x));
            if after.contains(x) && x != id@ {
                let k = choose|k: int| 0 <= k < after.len() && after[k] == x;
                assert(k < before.len());
                assert(before[k] == x);
            }
            if before.contains(x) {
                let k = choose|k: int| 0 <= k < before.len() && before[k] == x;
                assert(after[k] == x);
            }
            if x == id@ {
                assert(after[before.len() as int] == x);
            }
        }
        assert(after.to_set() =~= before.to_set().insert(id@));
        if self.ids.len() > MAX_SEEN_IDS {
            self.ids.clear();
            assert(views(self.ids@).to_set() =~= Set::<Seq<char>>::empty());
        }
    }
}

/// The memory of handled messages never holds more than `MAX_SEEN_IDS`
/// identifiers.
pub proof fn seen_ids_bounded(s: &SeenIds)
    requires
        s.wf(),
    ensures
        s.view().finite(),
        s.view().len() <= MAX_SEEN_IDS,
{
    views(s.ids@).unique_seq_to_set();
}

// ---------------------------------------------------------------------------
// Event payloads
// ---------------------------------------------------------------------------

/// `o`, or `d` when absent.
pub open spec fn text_or(o: Option<Seq<char>>, d: Seq<char>) -> Seq<char> {
    match o {
        Some(t) => t,
        None => d,
    }
}

/// A member, or `null` when absent.
pub open spec fn member_or_null(v: JsonView, key: Seq<char>) -> JsonView {
    match get_member(v, key) {
        Some(m) => m,
        None => JsonView::Null,
    }
}

/// What an event payload is, read as Feishu's event envelope.
pub enum EventClass {
    MissingHeader,
    /// An event other than a received message.
    OtherEvent,
    MissingEventBody,
    MissingMessage,
    MissingSender,
    /// A received message, with the fields that the gateway reads.
    Message {
        message_id: Seq<char>,
        chat_id: Seq<char>,
        group: bool,
        sender_id: Seq<char>,
        message_type: Seq<char>,
        content: Seq<char>,
        mentions: Seq<JsonView>,
        timestamp: i64,
    },
}

/// The event type that carries received messages.
pub open spec fn message_event_type() -> Seq<char> {
    "im.message.receive_v1"@
}

/// The `mentions` array of a message, empty when absent or not an array.
pub open spec fn mentions_of(msg: JsonView) -> Seq<JsonView> {
    match get_member(msg, "mentions"@) {
        Some(JsonView::Array(items)) => items,
        _ => Seq::empty(),
    }
}

/// Reads an event payload.
pub open spec fn classify_event(v: JsonView) -> EventClass {
    match get_member(v, "header"@) {
        None => EventClass::MissingHeader,
        Some(h) => if text_or(text_member(h, "event_type"@), Seq::empty())
            != message_event_type() {
            EventClass::OtherEvent
        } else {
            match get_member(v, "event"@) {
                None => EventClass::MissingEventBody,
                Some(ev) => match get_member(ev, "message"@) {
                    None => EventClass::MissingMessage,
                    Some(msg) => match get_member(ev, "sender"@) {
                        None => EventClass::MissingSender,
                        Some(sender) => EventClass::Message {
                            message_id: text_or(text_member(msg, "message_id"@), Seq::empty()),
                            chat_id: text_or(text_member(msg, "chat_id"@), Seq::empty()),
                            group: text_or(text_member(msg, "chat_type"@), "p2p"@) == "group"@,
                            sender_id: text_or(
                                text_member(member_or_null(sender, "sender_id"@), "open_id"@),
                                Seq::empty(),
                            ),
                            message_type: text_or(text_member(msg, "message_type"@), "text"@),
                            content: text_or(text_member(msg, "content"@), "{}"@),
                            mentions: mentions_of(msg),
                            timestamp: match text_member(h, "create_time"@) {
                                Some(t) => match parse_i64_spec(t) {
                                    Some(n) => n,
                                    None => 0,
                                },
                                None => 0,
                            },
                        },
                    },
                },
            }
        }
    }
}

/// Why an event payload could not be handled.
pub enum EventError {
    MissingHeader,
    MissingEventBody,
    MissingMessage,
    MissingSender,
}

impl EventError {
    /// The error's text.
    pub open spec fn message_of(&self) -> Seq<char> {
        match self {
            EventError::MissingHeader => "Missing header"@,
            EventError::MissingEventBody => "Missing event body"@,
            EventError::MissingMessage => "Missing message"@,
            EventError::MissingSender => "Missing sender"@,
        }
    }

    /// The error's text.
    pub fn message(&self) -> (m: String)
        ensures
            m@ == self.message_of(),
    {
        match self {
            EventError::MissingHeader => "Missing header".to_owned(),
            EventError::MissingEventBody => "Missing event body".to_owned(),
            EventError::MissingMessage => "Missing message".to_owned(),
            EventError::MissingSender => "Missing sender".to_owned(),
        }
    }
}

/// A received message that passed the first checks; its content (a JSON
/// text) still has to be parsed.
pub struct PendingEvent {
    pub message_id: String,
    pub chat_id: String,
    pub chat_type: ChatType,
    pub sender_id: String,
    pub content: String,
    pub mentions: Vec<JsonValue>,
    pub timestamp: i64,
}

/// The first stage of handling an event payload.
pub enum EventStep {
    Failed(EventError),
    /// Not a message event, a message seen before, or a message type other
    /// than text and post.
    Skipped,
    Pending(PendingEvent),
}

/// Whether a message of this type is handled (text and post messages).
pub open spec fn handled_type(t: Seq<char>) -> bool {
    t == "text"@ || t == "post"@
}

/// The identifier of the message that an event payload carries, if it is a
/// received message.
pub open spec fn event_message_id(v: JsonView) -> Option<Seq<char>> {
    match classify_event(v) {
        EventClass::Message { message_id, .. } => Some(message_id),
        _ => None,
    }
}

/// The identifiers remembered after an event payload has been read with
/// `seen` remembered before: a new message identifier is added, or the memory
/// is reset when it would exceed `MAX_SEEN_IDS`.
pub open spec fn seen_after(v: JsonView, seen: Set<Seq<char>>) -> Set<Seq<char>> {
    match event_message_id(v) {
        Some(id) => if seen.contains(id) {
            seen
        } else if seen.len() + 1 > MAX_SEEN_IDS {
            Set::empty()
        } else {
            seen.insert(id)
        },
        None => seen,
    }
}

/// The text of a `str` member, or a default.
fn member_text(v: &JsonValue, key: &str, default: &str) -> (r: String)
    ensures
        r@ == text_or(text_member(v.view(), key@), default@),
{
    match v.text_member(key) {
        Some(t) => t.to_owned(),
        None => default.to_owned(),
    }
}

/// The first stage of handling an event payload: reads the envelope, drops
/// messages seen before (remembering new ones) and message types other than
/// text and post.
pub fn begin_event(value: &JsonValue, seen: &mut SeenIds) -> (r: EventStep)
    requires
        old(seen).wf(),
    ensures
        final(seen).wf(),
        final(seen).view() == seen_after(value.view(), old(seen).view()),
        match classify_event(value.view()) {
            EventClass::MissingHeader => r matches EventStep::Failed(EventError::MissingHeader)
                && final(seen).view() == old(seen).view(),
            EventClass::OtherEvent => r is Skipped && final(seen).view() == old(seen).view(),
            EventClass::MissingEventBody => r matches EventStep::Failed(
                EventError::MissingEventBody,
            ) && final(seen).view() == old(seen).view(),
            EventClass::MissingMessage => r matches EventStep::Failed(EventError::MissingMessage)
                && final(seen).view() == old(seen).view(),
            EventClass::MissingSender => r matches EventStep::Failed(EventError::MissingSender)
                && final(seen).view() == old(seen).view(),
            EventClass::Message {
                message_id,
                chat_id,
                group,
                sender_id,
                message_type,
                content,
                mentions,
                timestamp,
            } => if old(seen).view().contains(message_id) {
                r is Skipped && final(seen).view() == old(seen).view()
            } else {
                &&& old(seen).view().len() + 1 > MAX_SEEN_IDS ==> final(seen).view() == Set::<
                    Seq<char>,
                >::empty()
                &&& old(seen).view().len() + 1 <= MAX_SEEN_IDS ==> final(seen).view() == old(
                    seen,
                ).view().insert(message_id)
                &&& if !handled_type(message_type) {
                    r is Skipped
                } else {
                    r matches EventStep::Pending(p) && p.message_id@ == message_id && p.chat_id@
                        == chat_id && (p.chat_type == ChatType::Group) == group && p.sender_id@
                        == sender_id && p.content@ == content && p.mentions@.len()
                        == mentions.len() && (forall|i: int|
                        0 <= i < mentions.len() ==> (#[trigger] p.mentions@[i]).view()
                            == mentions[i]) && p.timestamp == timestamp
                }
            },
        },
{
    proof {
        reveal_strlit("");
        reveal_strlit("p2p");
        reveal_strlit("group");
        assert(""@ =~= Seq::<char>::empty());
    }
    let header = match value.get("header") {
        Some(h) => h,
        None => {
            return EventStep::Failed(EventError::MissingHeader);
        },
    };
    let event_type = member_text(header, "event_type", "");
    if !str_eq(event_type.as_str(), "im.message.receive_v1") {
        return EventStep::Skipped;
    }
    let event = match value.get("event") {
        Some(e) => e,
        None => {
            return EventStep::Failed(EventError::MissingEventBody);
        },
    };
    let message = match event.get("message") {
        Some(m) => m,
        None => {
            return EventStep::Failed(EventError::MissingMessage);
        },
    };
    let sender = match event.get("sender") {
        Some(s) => s,
        None => {
            return EventStep::Failed(EventError::MissingSender);
        },
    };
    let message_id = member_text(message, "message_id", "");
    if seen.contains(message_id.as_str()) {
        return EventStep::Skipped;
    }
    seen.record(message_id.clone());
    let chat_id = member_text(message, "chat_id", "");
    let chat_type_text = member_text(message, "chat_type", "p2p");
    let chat_type = if str_eq(chat_type_text.as_str(), "group") {
        ChatType::Group
    } else {
        ChatType::Direct
    };
    let sender_id = match sender.get("sender_id") {
        Some(sid) => member_text(sid, "open_id", ""),
        None => {
            let null = JsonValue::Null;
            member_text(&null, "open_id", "")
        },
    };
    let message_type = member_text(message, "message_type", "text");
    if !str_eq(message_type.as_str(), "text") && !str_eq(message_type.as_str(), "post") {
        return EventStep::Skipped;
    }
    let content = member_text(message, "content", "{}");
    let mut mentions: Vec<JsonValue> = Vec::new();
    match message.get("mentions") {
        Some(JsonValue::Array(items)) => {
            let mut i: usize = 0;
            while i < items.len()
                invariant
                    i <= items@.len(),
                    mentions@.len() == i,
                    forall|j: int|
                        0 <= j < i ==> (#[trigger] mentions@[j]).view() == items@[j].view(),
                decreases items@.len() - i,
            {
                mentions.push(items[i].deep_copy());
                i = i + 1;
            }
            assert(mentions_of(message.view()) == JsonValue::Array(*items).view()->Array_0);
        },
        _ => {},
    }
    let timestamp = match header.text_member("create_time") {
        Some(t) => match parse_i64(t) {
            Some(n) => n,
            None => 0,
        },
        None => 0,
    };
    EventStep::Pending(
        PendingEvent { message_id, chat_id, chat_type, sender_id, content, mentions, timestamp },
    )
}

/// The text with one mention placeholder (the mention's `key`, such as
/// `@_user_1`) removed and the ends trimmed; unchanged for a mention without
/// a key.
pub open spec fn strip_mention(text: Seq<char>, m: JsonView) -> Seq<char> {
    match text_member(m, "key"@) {
        Some(k) => trim_spec(remove_all_spec(text, k)),
        None => text,
    }
}

/// The text with the placeholders of all mentions removed, in order.
pub open spec fn strip_mentions(text: Seq<char>, ms: Seq<JsonView>) -> Seq<char>
    decreases ms.len(),
{
    if ms.len() == 0 {
        text
    } else {
        strip_mentions(strip_mention(text, ms[0]), ms.drop_first())
    }
}

/// The models of a vector of JSON values.
pub open spec fn json_views(v: Seq<JsonValue>) -> Seq<JsonView> {
    v.map_values(|j: JsonValue| j.view())
}

/// The message text of a parsed content value: its `text` member with the
/// mention placeholders removed.
pub open spec fn message_text(content: JsonView, mentions: Seq<JsonView>) -> Seq<char> {
    strip_mentions(text_or(text_member(content, "text"@), Seq::empty()), mentions)
}

proof fn lemma_strip_mentions_push(text: Seq<char>, ms: Seq<JsonView>, m: JsonView)
    ensures
        strip_mentions(text, ms.push(m)) == strip_mention(strip_mentions(text, ms), m),
    decreases ms.len(),
{
    if ms.len() == 0 {
        assert(ms.push(m).drop_first() =~= Seq::<JsonView>::empty());
        assert(ms.push(m)[0] == m);
        assert(strip_mentions(strip_mention(text, m), Seq::<JsonView>::empty()) == strip_mention(
            text,
            m,
        ));
        assert(strip_mentions(text, ms) == text);
    } else {
        assert(ms.push(m).drop_first() =~= ms.drop_first().push(m));
        assert(ms.push(m)[0] == ms[0]);
        lemma_strip_mentions_push(strip_mention(text, ms[0]), ms.drop_first(), m);
    }
}

/// Every mention's placeholder is removed from a message's text, in the order
/// of the mentions: with no mentions the text is the content's `text` member
/// (empty when missing); one more mention at the end of the list removes
/// every occurrence of that mention's `key` from the text of the others and
/// trims the ends (a mention without a `key` changes nothing).
pub proof fn mention_stripping_law(content: JsonView, ms: Seq<JsonView>, m: JsonView)
    ensures
        message_text(content, Seq::empty()) == text_or(text_member(content, "text"@), Seq::empty()),
        message_text(content, ms.push(m)) == match text_member(m, "key"@) {
            Some(k) => trim_spec(remove_all_spec(message_text(content, ms), k)),
            None => message_text(content, ms),
        },
{
    lemma_strip_mentions_push(text_or(text_member(content, "text"@), Seq::empty()), ms, m);
}

/// The second stage of handling a received message: `content` is its
/// content parsed as JSON (`null` when it does not parse). Group messages
/// that do not mention the bot are dropped when mentions are required, and so
/// are messages whose text is empty once mentions are removed.
pub fn finish_event(pending: PendingEvent, content: &JsonValue, require_mention: bool) -> (r:
    Option<InboundMessage>)
    ensures
        ({
            let text = message_text(content.view(), json_views(pending.mentions@));
            let bot = pending.mentions@.len() > 0;
            if pending.chat_type == ChatType::Group && require_mention && !bot {
                r is None
            } else if text.len() == 0 {
                r is None
            } else {
                r matches Some(m) && m.id@ == pending.message_id@ && m.channel@ == "feishu"@
                    && m.chat_id@ == pending.chat_id@ && m.chat_type == pending.chat_type
                    && m.sender_id@ == pending.sender_id@ && m.sender_name is None && m.text@
                    == text && m.reply_to is None && m.mentions_bot == bot && m.timestamp
                    == pending.timestamp
            }
        }),
{
    proof {
        reveal_strlit("");
        assert(""@ =~= Seq::<char>::empty());
    }
    let mut text = member_text(content, "text", "");
    let ghost ms = json_views(pending.mentions@);
    let mentions_bot = pending.mentions.len() > 0;
    let mut i: usize = 0;
    assert(ms.skip(0) =~= ms);
    while i < pending.mentions.len()
        invariant
            ms == json_views(pending.mentions@),
            i <= ms.len(),
            message_text(content.view(), ms) == strip_mentions(text@, ms.skip(i as int)),
        decreases ms.len() - i,
    {
        assert(ms.skip(i as int)[0] == pending.mentions@[i as int].view());
        assert(ms.skip(i as int).drop_first() =~= ms.skip(i + 1));
        match pending.mentions[i].text_member("key") {
            Some(k) => {
                let removed = remove_all(text.as_str(), k);
                text = trim(removed.as_str());
            },
            None => {},
        }
        i = i + 1;
    }
    assert(ms.skip(i as int) =~= Seq::<JsonView>::empty());
    let group = match pending.chat_type {
        ChatType::Group => true,
        ChatType::Direct => false,
    };
    if group && require_mention && !mentions_bot {
        return None;
    }
    if text.unicode_len() == 0 {
        return None;
    }
    Some(
        InboundMessage {
            id: pending.message_id,
            channel: "feishu".to_owned(),
            chat_id: pending.chat_id,
            chat_type: pending.chat_type,
            sender_id: pending.sender_id,
            sender_name: None,
            text,
            reply_to: None,
            mentions_bot,
            timestamp: pending.timestamp,
        },
    )
}

/// A message event delivered again right after it was read is skipped: its
/// identifier is remembered, unless the memory was full and had to be reset.
pub proof fn redelivery_is_skipped(v: JsonView, seen: Set<Seq<char>>)
    requires
        seen.finite(),
        seen.len() < MAX_SEEN_IDS,
        event_message_id(v) is Some,
    ensures
        seen_after(v, seen).contains(event_message_id(v)->0),
        seen_after(v, seen_after(v, seen)) == seen_after(v, seen),
{
}

// ---------------------------------------------------------------------------
// Feishu API errors
// ---------------------------------------------------------------------------

/// What went wrong talking to the Feishu API.
pub enum FeishuError {
    /// The token endpoint answered with a non-zero code.
    Auth { code: i32, msg: String },
    /// The token endpoint answered without a token.
    MissingToken,
    /// Sending a message was refused.
    Send { code: i32, msg: String },
    /// Replying to a message was refused.
    Reply { code: i32, msg: String },
    /// The WebSocket endpoint negotiation was refused.
    WsEndpoint { code: i32, msg: String },
    /// The WebSocket endpoint answer carries no URL.
    NoWebSocketUrl,
}

/// `{what} (code {code}): {msg}`
pub open spec fn coded_message(what: Seq<char>, code: i32, msg: Seq<char>) -> Seq<char> {
    what + " (code "@ + signed_decimal_spec(code as int) + "): "@ + msg
}

impl FeishuError {
    /// The error's text, as the error prints it.
    pub open spec fn message_of(&self) -> Seq<char> {
        match self {
            FeishuError::Auth { code, msg } => coded_message("Feishu auth error"@, *code, msg@),
            FeishuError::MissingToken => "Missing tenant_access_token in response"@,
            FeishuError::Send { code, msg } => coded_message("Feishu send error"@, *code, msg@),
            FeishuError::Reply { code, msg } => coded_message("Feishu reply error"@, *code, msg@),
            FeishuError::WsEndpoint { code, msg } => coded_message(
                "Feishu WS endpoint error"@,
                *code,
                msg@,
            ),
            FeishuError::NoWebSocketUrl => "No WebSocket URL in response"@,
        }
    }

    /// The error's text.
    pub fn message(&self) -> (m: String)
        ensures
            m@ == self.message_of(),
    {
        match self {
            FeishuError::Auth { code, msg } => coded(
                "Feishu auth error",
                *code,
                msg.as_str(),
            ),
            FeishuError::MissingToken => "Missing tenant_access_token in response".to_owned(),
            FeishuError::Send { code, msg } => coded("Feishu send error", *code, msg.as_str()),
            FeishuError::Reply { code, msg } => coded("Feishu reply error", *code, msg.as_str()),
            FeishuError::WsEndpoint { code, msg } => coded(
                "Feishu WS endpoint error",
                *code,
                msg.as_str(),
            ),
            FeishuError::NoWebSocketUrl => "No WebSocket URL in response".to_owned(),
        }
    }
}

/// `{what} (code {code}): {msg}`
fn coded(what: &str, code: i32, msg: &str) -> (r: String)
    ensures
        r@ == coded_message(what@, code, msg@),
{
    let mut r = concat2(what, " (code ");
    let c = fmt_i64(code as i64);
    r.append(c.as_str());
    r.append("): ");
    r.append(msg);
    r
}

// ---------------------------------------------------------------------------
// tenant_access_token cache
// ---------------------------------------------------------------------------

/// A token is renewed when it has less than this long to live (ms).
pub const TOKEN_REFRESH_MARGIN_MS: u64 = 300_000;

/// Lifetime of a token whose response does not say (seconds).
pub const DEFAULT_TOKEN_LIFETIME_SECS: u64 = 7200;

/// The answer of the tenant_access_token endpoint.
pub struct TokenResponse {
    pub code: i32,
    pub msg: String,
    pub tenant_access_token: Option<String>,
    pub expire: Option<u64>,
}

/// A token and when it expires (milliseconds on the caller's monotonic clock;
/// wide enough for any lifetime that an answer can grant).
pub struct CachedToken {
    pub token: String,
    pub expires_at: u128,
}

/// The cached tenant_access_token.
pub struct TokenCache {
    cached: Option<CachedToken>,
}

/// The lifetime that a token response grants, in seconds.
pub open spec fn lifetime_secs(resp: TokenResponse) -> nat {
    match resp.expire {
        Some(e) => e as nat,
        None => DEFAULT_TOKEN_LIFETIME_SECS as nat,
    }
}

/// The token that a cache holding `c` serves at time `now`: the cached one
/// while it has more than the refresh margin to live.
pub open spec fn served_token(c: Option<(Seq<char>, int)>, now: int) -> Option<Seq<char>> {
    match c {
        Some((t, exp)) => if exp > now + TOKEN_REFRESH_MARGIN_MS {
            Some(t)
        } else {
            None
        },
        None => None,
    }
}

/// What the cache holds after accepting `resp` at time `now`.
pub open spec fn cache_after(c: Option<(Seq<char>, int)>, resp: TokenResponse, now: int) -> Option<
    (Seq<char>, int),
> {
    if resp.code != 0 {
        c
    } else {
        match resp.tenant_access_token {
            Some(t) => Some((t@, now + lifetime_secs(resp) * 1000)),
            None => c,
        }
    }
}

impl TokenCache {
    /// The cached token and its expiry.
    pub closed spec fn view(&self) -> Option<(Seq<char>, int)> {
        match self.cached {
            Some(c) => Some((c.token@, c.expires_at as int)),
            None => None,
        }
    }

    /// An empty cache.
    pub fn new() -> (r: TokenCache)
        ensures
            r.view() is None,
    {
        TokenCache { cached: None }
    }

    /// The cached token, if it stays valid beyond the refresh margin.
    pub fn valid_token(&self, now: u64) -> (r: Option<String>)
        ensures
            match r {
                Some(t) => served_token(self.view(), now as int) == Some(t@),
                None => served_token(self.view(), now as int) is None,
            },
    {
        match &self.cached {
            Some(c) => {
                if c.expires_at > now as u128 + TOKEN_REFRESH_MARGIN_MS as u128 {
                    Some(c.token.clone())
                } else {
                    None
                }
            },
            None => None,
        }
    }

    /// Takes in the token endpoint's answer at time `now`: an error code or a
    /// missing token is an error and leaves the cache as it was; otherwise
    /// the token is cached until `now` plus its lifetime and returned.
    pub fn accept(&mut self, resp: TokenResponse, now: u64) -> (r: Result<String, FeishuError>)
        ensures
            final(self).view() == cache_after(old(self).view(), resp, now as int),
            resp.code != 0 ==> (r matches Err(FeishuError::Auth { code, msg }) && code == resp.code
                && msg@ == resp.msg@),
            resp.code == 0 ==> match resp.tenant_access_token {
                Some(t) => (r matches Ok(s) && s@ == t@),
                None => (r matches Err(FeishuError::MissingToken)),
            },
    {
        if resp.code != 0 {
            return Err(FeishuError::Auth { code: resp.code, msg: resp.msg });
        }
        let lifetime = match resp.expire {
            Some(e) => e,
            None => DEFAULT_TOKEN_LIFETIME_SECS,
        };
        match resp.tenant_access_token {
            Some(t) => {
                assert(lifetime as u128 * 1000 <= u64::MAX as u128 * 1000) by (nonlinear_arith)
                    requires
                        lifetime <= u64::MAX,
                ;
                let expires_at = now as u128 + lifetime as u128 * 1000;
                self.cached = Some(CachedToken { token: t.clone(), expires_at });
                Ok(t)
            },
            None => Err(FeishuError::MissingToken),
        }
    }
}

/// A token accepted at time `now` is served from the cache exactly while
/// the time stays more than the refresh margin before its expiry; a refused
/// answer leaves what the cache serves unchanged.
pub proof fn token_cache_law(
    c: Option<(Seq<char>, int)>,
    resp: TokenResponse,
    now: int,
    later: int,
)
    ensures
        resp.code == 0 && resp.tenant_access_token is Some ==> served_token(
            cache_after(c, resp, now),
            later,
        ) == (if later + TOKEN_REFRESH_MARGIN_MS < now + lifetime_secs(resp) * 1000 {
            Some(resp.tenant_access_token->0@)
        } else {
            None
        }),
        resp.code != 0 || resp.tenant_access_token is None ==> served_token(
            cache_after(c, resp, now),
            later,
        ) == served_token(c, later),
{
}

// ---------------------------------------------------------------------------
// REST API answers and URLs
// ---------------------------------------------------------------------------

/// A Feishu REST API answer.
pub struct ApiResponse {
    pub code: i32,
    pub msg: String,
    pub data: Option<JsonValue>,
}

/// Which message call an answer belongs to.
pub enum MessageCall {
    Send,
    Reply,
}

/// The model of optional data.
pub open spec fn data_view(d: Option<JsonValue>) -> JsonView {
    match d {
        Some(v) => v.view(),
        None => JsonView::Null,
    }
}

/// The outcome of a send or reply call: the new message's identifier
/// (empty when the answer does not carry one), or the API's error.
pub fn sent_message_id(resp: &ApiResponse, call: MessageCall) -> (r: Result<String, FeishuError>)
    ensures
        resp.code != 0 ==> match call {
            MessageCall::Send => (r matches Err(FeishuError::Send { code, msg }) && code
                == resp.code && msg@ == resp.msg@),
            MessageCall::Reply => (r matches Err(FeishuError::Reply { code, msg }) && code
                == resp.code && msg@ == resp.msg@),
        },
        resp.code == 0 ==> (r matches Ok(id) && id@ == text_or(
            text_member(data_view(resp.data), "message_id"@),
            Seq::empty(),
        )),
{
    proof {
        reveal_strlit("");
        assert(""@ =~= Seq::<char>::empty());
    }
    if resp.code != 0 {
        return match call {
            MessageCall::Send => Err(FeishuError::Send { code: resp.code, msg: resp.msg.clone() }),
            MessageCall::Reply => Err(
                FeishuError::Reply { code: resp.code, msg: resp.msg.clone() },
            ),
        };
    }
    match &resp.data {
        Some(d) => Ok(member_text(d, "message_id", "")),
        None => {
            let null = JsonValue::Null;
            Ok(member_text(&null, "message_id", ""))
        },
    }
}

/// A user's display name from the contact API's answer, falling back to the
/// open_id when the call failed or the answer carries no name.
pub fn user_name_from(resp: &ApiResponse, open_id: &str) -> (r: String)
    ensures
        resp.code != 0 ==> r@ == open_id@,
        resp.code == 0 ==> r@ == text_or(
            text_member(member_or_null(data_view(resp.data), "user"@), "name"@),
            open_id@,
        ),
{
    if resp.code != 0 {
        return owned(open_id);
    }
    let null = JsonValue::Null;
    let data = match &resp.data {
        Some(d) => d,
        None => &null,
    };
    match data.get("user") {
        Some(u) => member_text(u, "name", open_id),
        None => member_text(&null, "name", open_id),
    }
}

/// The `data` of the WebSocket endpoint answer.
pub struct WsEndpointData {
    pub url: Option<String>,
}

/// The answer of the WebSocket endpoint negotiation.
pub struct WsEndpointResponse {
    pub code: i32,
    pub msg: String,
    pub data: Option<WsEndpointData>,
}

/// The WebSocket URL that the negotiation yields.
pub fn ws_url_from(resp: &WsEndpointResponse) -> (r: Result<String, FeishuError>)
    ensures
        resp.code != 0 ==> (r matches Err(FeishuError::WsEndpoint { code, msg }) && code
            == resp.code && msg@ == resp.msg@),
        resp.code == 0 ==> match resp.data {
            Some(WsEndpointData { url: Some(u) }) => (r matches Ok(s) && s@ == u@),
            _ => (r matches Err(FeishuError::NoWebSocketUrl)),
        },
{
    if resp.code != 0 {
        return Err(FeishuError::WsEndpoint { code: resp.code, msg: resp.msg.clone() });
    }
    match &resp.data {
        Some(d) => match &d.url {
            Some(u) => Ok(u.clone()),
            None => Err(FeishuError::NoWebSocketUrl),
        },
        None => Err(FeishuError::NoWebSocketUrl),
    }
}

/// URL of the tenant_access_token endpoint.
pub fn token_url(base_url: &str) -> (r: String)
    ensures
        r@ == base_url@ + "/auth/v3/tenant_access_token/internal"@,
{
    concat2(base_url, "/auth/v3/tenant_access_token/internal")
}

/// URL for sending a message to a chat.
pub fn send_url(base_url: &str) -> (r: String)
    ensures
        r@ == base_url@ + "/im/v1/messages?receive_id_type=chat_id"@,
{
    concat2(base_url, "/im/v1/messages?receive_id_type=chat_id")
}

/// URL for replying to message `message_id`.
pub fn reply_url(base_url: &str, message_id: &str) -> (r: String)
    ensures
        r@ == base_url@ + "/im/v1/messages/"@ + message_id@ + "/reply"@,
{
    let mut r = concat2(base_url, "/im/v1/messages/");
    r.append(message_id);
    r.append("/reply");
    r
}

/// URL of a user's contact record, by open_id.
pub fn user_url(base_url: &str, open_id: &str) -> (r: String)
    ensures
        r@ == base_url@ + "/contact/v3/users/"@ + open_id@ + "?user_id_type=open_id"@,
{
    let mut r = concat2(base_url, "/contact/v3/users/");
    r.append(open_id);
    r.append("?user_id_type=open_id");
    r
}

// ---------------------------------------------------------------------------
// Request bodies
// ---------------------------------------------------------------------------

/// The content of a text message, given its text already written as a JSON
/// string: `{"text":<quoted>}`.
pub fn text_content_from(quoted: &str) -> (r: String)
    ensures
        r@ == "{\"text\":"@ + quoted@ + "}"@,
{
    let mut r = concat2("{\"text\":", quoted);
    r.append("}");
    r
}

/// The content of a text message: the JSON text `{"text":...}`.
pub fn text_content(text: &str) -> (r: String)
    ensures
        r@ == "{\"text\":"@ + json_quoted(text@) + "}"@,
{
    let q = quote_json(text);
    text_content_from(q.as_str())
}

/// An object of string members.
fn string_object(members: Vec<(String, String)>) -> (r: JsonValue)
    ensures
        r.view() == JsonView::Object(
            Seq::new(members@.len(), |i: int| (members@[i].0@, JsonView::Str(members@[i].1@))),
        ),
{
    let ghost ms = members@;
    let mut out: Vec<(String, JsonValue)> = Vec::new();
    let mut i: usize = 0;
    while i < members.len()
        invariant
            ms == members@,
            i <= ms.len(),
            out@.len() == i,
            forall|j: int|
                0 <= j < i ==> (#[trigger] out@[j]).0@ == ms[j].0@ && out@[j].1.view()
                    == JsonView::Str(ms[j].1@),
        decreases ms.len() - i,
    {
        out.push((members[i].0.clone(), JsonValue::String(members[i].1.clone())));
        i = i + 1;
    }
    let r = JsonValue::Object(out);
    assert(r.view()->Object_0 =~= Seq::new(
        ms.len(),
        |i: int| (ms[i].0@, JsonView::Str(ms[i].1@)),
    ));
    r
}

/// The body of a send call: `{"receive_id", "msg_type", "content"}`.
pub fn send_body(chat_id: &str, msg_type: &str, content: &str) -> (r: JsonValue)
    ensures
        r.view() == JsonView::Object(
            seq![
                ("receive_id"@, JsonView::Str(chat_id@)),
                ("msg_type"@, JsonView::Str(msg_type@)),
                ("content"@, JsonView::Str(content@)),
            ],
        ),
{
    let mut ms: Vec<(String, String)> = Vec::new();
    ms.push(("receive_id".to_owned(), chat_id.to_owned()));
    ms.push(("msg_type".to_owned(), msg_type.to_owned()));
    ms.push(("content".to_owned(), content.to_owned()));
    let r = string_object(ms);
    assert(r.view()->Object_0 =~= seq![
        ("receive_id"@, JsonView::Str(chat_id@)),
        ("msg_type"@, JsonView::Str(msg_type@)),
        ("content"@, JsonView::Str(content@)),
    ]);
    r
}

/// The body of a reply call: `{"msg_type": "text", "content"}`.
pub fn reply_body(content: &str) -> (r: JsonValue)
    ensures
        r.view() == JsonView::Object(
            seq![("msg_type"@, JsonView::Str("text"@)), ("content"@, JsonView::Str(content@))],
        ),
{
    let mut ms: Vec<(String, String)> = Vec::new();
    ms.push(("msg_type".to_owned(), "text".to_owned()));
    ms.push(("content".to_owned(), content.to_owned()));
    let r = string_object(ms);
    assert(r.view()->Object_0 =~= seq![
        ("msg_type"@, JsonView::Str("text"@)),
        ("content"@, JsonView::Str(content@)),
    ]);
    r
}

/// The body of the token request: `{"app_id", "app_secret"}`.
pub fn token_body(app_id: &str, app_secret: &str) -> (r: JsonValue)
    ensures
        r.view() == JsonView::Object(
            seq![("app_id"@, JsonView::Str(app_id@)), ("app_secret"@, JsonView::Str(app_secret@))],
        ),
{
    let mut ms: Vec<(String, String)> = Vec::new();
    ms.push(("app_id".to_owned(), app_id.to_owned()));
    ms.push(("app_secret".to_owned(), app_secret.to_owned()));
    let r = string_object(ms);
    assert(r.view()->Object_0 =~= seq![
        ("app_id"@, JsonView::Str(app_id@)),
        ("app_secret"@, JsonView::Str(app_secret@)),
    ]);
    r
}

/// The body of the WebSocket endpoint request: `{"AppID", "AppSecret"}`.
pub fn ws_endpoint_body(app_id: &str, app_secret: &str) -> (r: JsonValue)
    ensures
        r.view() == JsonView::Object(
            seq![("AppID"@, JsonView::Str(app_id@)), ("AppSecret"@, JsonView::Str(app_secret@))],
        ),
{
    let mut ms: Vec<(String, String)> = Vec::new();
    ms.push(("AppID".to_owned(), app_id.to_owned()));
    ms.push(("AppSecret".to_owned(), app_secret.to_owned()));
    let r = string_object(ms);
    assert(r.view()->Object_0 =~= seq![
        ("AppID"@, JsonView::Str(app_id@)),
        ("AppSecret"@, JsonView::Str(app_secret@)),
    ]);
    r
}

} // verus!
