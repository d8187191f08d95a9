use vstd::prelude::*;

use crate::channels::{ChannelHealth, ChatType, InboundMessage, OutboundMessage};
use crate::config::{ChannelsConfig, GatewayConfig, LoggingConfig};
use crate::json::{
    lookup_dotted, lookup_dotted_key, text_member, JsonNumber, JsonValue, JsonView, NumberView,
};
use crate::protocol::{
    duplicate_id, id_view, json_opt_view, RpcError, RpcId, RpcRequest, RpcResponse,
    AGENT_ERROR, INVALID_PARAMS, METHOD_NOT_FOUND, PARSE_ERROR,
};
use crate::text::{concat2, decimal_spec, fmt_u64, pad_right, pad_right_spec, repeat_char, str_eq};
use crate::json::get_member;

verus! {

// ---------------------------------------------------------------------------
// JSON-RPC dispatch
// ---------------------------------------------------------------------------

/// What answering a request takes.
pub enum RpcAction {
    /// Answer with the gateway's health.
    Health,
    /// Send `text` to the agent and answer with its reply.
    Chat { text: String },
    /// Answer with the status of every channel.
    ChannelsStatus,
    /// Answer with the configuration, or the value at a dotted key.
    ConfigGet { key: Option<String> },
    /// Answer right away with this response.
    Respond(RpcResponse),
}

/// Whether the client expects an answer to `req`: a notification (a request
/// without an id) is carried out but not answered.
pub fn expects_reply(req: &RpcRequest) -> (r: bool)
    ensures
        r == (req.id is Some),
{
    req.id.is_some()
}

/// A JSON-RPC error object without data.
pub open spec fn error_is(e: RpcError, code: i32, message: Seq<char>) -> bool {
    e.code == code && e.message@ == message && e.data is None
}

/// The params of a request, `null` when absent.
pub open spec fn params_view(req: RpcRequest) -> JsonView {
    match req.params {
        Some(p) => p.view(),
        None => JsonView::Null,
    }
}

/// The `text` parameter of `chat.send`, empty when absent.
pub open spec fn chat_text(req: RpcRequest) -> Seq<char> {
    match text_member(params_view(req), "text"@) {
        Some(t) => t,
        None => Seq::empty(),
    }
}

/// Decides how to answer a JSON-RPC request, by its method.
pub fn route_rpc(req: &RpcRequest) -> (r: RpcAction)
    ensures
        req.method@ == "health"@ ==> r is Health,
        req.method@ == "chat.send"@ ==> if chat_text(*req).len() == 0 {
            r matches RpcAction::Respond(resp) && resp.well_formed() && id_view(resp.id) == id_view(
                req.id,
            ) && resp.result is None && (resp.error matches Some(e) && error_is(
                e,
                INVALID_PARAMS,
                "Missing 'text' parameter"@,
            ))
        } else {
            r matches RpcAction::Chat { text } && text@ == chat_text(*req)
        },
        req.method@ == "channels.status"@ ==> r is ChannelsStatus,
        req.method@ == "config.get"@ ==> (r matches RpcAction::ConfigGet { key } && match key {
            Some(k) => text_member(params_view(*req), "key"@) == Some(k@),
            None => text_member(params_view(*req), "key"@) is None,
        }),
        req.method@ != "health"@ && req.method@ != "chat.send"@ && req.method@
            != "channels.status"@ && req.method@ != "config.get"@ ==> (r matches RpcAction::Respond(
            resp,
        ) && resp.well_formed() && id_view(resp.id) == id_view(req.id) && resp.result is None && (
        resp.error matches Some(e) && error_is(e, METHOD_NOT_FOUND, "Method not found: "@ + req.method@))),
{
    proof {
        reveal_strlit("health");
        reveal_strlit("chat.send");
        reveal_strlit("channels.status");
        reveal_strlit("config.get");
        assert("health"@.len() == 6);
        assert("chat.send"@.len() == 9);
        assert("config.get"@.len() == 10);
        assert("channels.status"@.len() == 15);
    }
    let method = req.method.as_str();
    if str_eq(method, "health") {
        RpcAction::Health
    } else if str_eq(method, "chat.send") {
        let null = JsonValue::Null;
        let params = match &req.params {
            Some(p) => p,
            None => &null,
        };
        let text = match params.text_member("text") {
            Some(t) => t.to_owned(),
            None => String::new(),
        };
        if text.unicode_len() == 0 {
            let err = RpcError {
                code: INVALID_PARAMS,
                message: "Missing 'text' parameter".to_owned(),
                data: None,
            };
            RpcAction::Respond(RpcResponse::error(duplicate_id(&req.id), err))
        } else {
            RpcAction::Chat { text }
        }
    } else if str_eq(method, "channels.status") {
        RpcAction::ChannelsStatus
    } else if str_eq(method, "config.get") {
        let null = JsonValue::Null;
        let params = match &req.params {
            Some(p) => p,
            None => &null,
        };
        let key = match params.text_member("key") {
            Some(k) => Some(k.to_owned()),
            None => None,
        };
        RpcAction::ConfigGet { key }
    } else {
        let err = RpcError {
            code: METHOD_NOT_FOUND,
            message: concat2("Method not found: ", method),
            data: None,
        };
        RpcAction::Respond(RpcResponse::error(duplicate_id(&req.id), err))
    }
}

/// `{"status": "ok", "uptime_secs": uptime}`
pub open spec fn health_view(uptime_secs: u64) -> JsonView {
    JsonView::Object(
        seq![
            ("status"@, JsonView::Str("ok"@)),
            ("uptime_secs"@, JsonView::Number(NumberView::PosInt(uptime_secs as nat))),
        ],
    )
}

/// The gateway's health: `{"status": "ok", "uptime_secs": uptime}`.
pub fn health_result(uptime_secs: u64) -> (r: JsonValue)
    ensures
        r.view() == health_view(uptime_secs),
{
    let mut members: Vec<(String, JsonValue)> = Vec::new();
    members.push(("status".to_owned(), JsonValue::String("ok".to_owned())));
    members.push(
        ("uptime_secs".to_owned(), JsonValue::Number(JsonNumber::PosInt(uptime_secs))),
    );
    assert(members@[0].1.view() == JsonView::Str("ok"@));
    assert(members@[1].1.view() == JsonView::Number(NumberView::PosInt(uptime_secs as nat)));
    let r = JsonValue::Object(members);
    assert(r.view()->Object_0 =~= health_view(uptime_secs)->Object_0);
    r
}

/// The answer to `health`.
pub fn health_response(id: &Option<RpcId>, uptime_secs: u64) -> (r: RpcResponse)
    ensures
        r.well_formed(),
        id_view(r.id) == id_view(*id),
        json_opt_view(r.result) == Some(health_view(uptime_secs)),
{
    RpcResponse::success(duplicate_id(id), health_result(uptime_secs))
}

/// The answer to `chat.send` once the agent has answered: its reply, or
/// the agent's failure (`detail` is the failure's text).
pub fn chat_response(id: &Option<RpcId>, outcome: Result<String, String>) -> (r: RpcResponse)
    ensures
        r.well_formed(),
        id_view(r.id) == id_view(*id),
        match outcome {
            Ok(reply) => json_opt_view(r.result) == Some(
                JsonView::Object(seq![("reply"@, JsonView::Str(reply@))]),
            ),
            Err(detail) => (r.error matches Some(e) && error_is(
                e,
                AGENT_ERROR,
                "Agent error: "@ + detail@,
            )),
        },
{
    match outcome {
        Ok(reply) => {
            let ghost rv = reply@;
            let mut members: Vec<(String, JsonValue)> = Vec::new();
            members.push(("reply".to_owned(), JsonValue::String(reply)));
            assert(members@[0].1.view() == JsonView::Str(rv));
            let v = JsonValue::Object(members);
            assert(v.view()->Object_0 =~= seq![("reply"@, JsonView::Str(rv))]);
            RpcResponse::success(duplicate_id(id), v)
        },
        Err(detail) => {
            let err = RpcError {
                code: AGENT_ERROR,
                message: concat2("Agent error: ", detail.as_str()),
                data: None,
            };
            RpcResponse::error(duplicate_id(id), err)
        },
    }
}

/// `null`, or the number.
pub open spec fn opt_u64_view(v: Option<u64>) -> JsonView {
    match v {
        Some(n) => JsonView::Number(NumberView::PosInt(n as nat)),
        None => JsonView::Null,
    }
}

/// `null`, or the string.
pub open spec fn opt_text_view(v: Option<String>) -> JsonView {
    match v {
        Some(s) => JsonView::Str(s@),
        None => JsonView::Null,
    }
}

/// The status entry of one channel:
/// `{"id", "connected", "latency_ms", "error"}`.
pub open spec fn channel_status_view(id: Seq<char>, h: ChannelHealth) -> JsonView {
    JsonView::Object(
        seq![
            ("id"@, JsonView::Str(id)),
            ("connected"@, JsonView::Bool(h.connected)),
            ("latency_ms"@, opt_u64_view(h.latency_ms)),
            ("error"@, opt_text_view(h.error)),
        ],
    )
}

/// The answer to `channels.status`: one entry per channel, in order.
pub fn channels_status_response(id: &Option<RpcId>, health: Vec<(String, ChannelHealth)>) -> (r:
    RpcResponse)
    ensures
        r.well_formed(),
        id_view(r.id) == id_view(*id),
        json_opt_view(r.result) == Some(
            JsonView::Array(
                Seq::new(
                    health@.len(),
                    |i: int| channel_status_view(health@[i].0@, health@[i].1),
                ),
            ),
        ),
{
    let ghost hv = health@;
    let mut items: Vec<JsonValue> = Vec::new();
    let mut i: usize = 0;
    while i < health.len()
        invariant
            hv == health@,
            i <= hv.len(),
            items@.len() == i,
            forall|j: int|
                0 <= j < i ==> (#[trigger] items@[j]).view() == channel_status_view(
                    hv[j].0@,
                    hv[j].1,
                ),
        decreases hv.len() - i,
    {
        let (cid, h) = (&health[i].0, &health[i].1);
        let latency = match h.latency_ms {
            Some(ms) => JsonValue::Number(JsonNumber::PosInt(ms)),
            None => JsonValue::Null,
        };
        let error = match &h.error {
            Some(e) => JsonValue::String(e.clone()),
            None => JsonValue::Null,
        };
        let mut members: Vec<(String, JsonValue)> = Vec::new();
        members.push(("id".to_owned(), JsonValue::String(cid.clone())));
        members.push(("connected".to_owned(), JsonValue::Bool(h.connected)));
        members.push(("latency_ms".to_owned(), latency));
        members.push(("error".to_owned(), error));
        assert(members@[0].1.view() == JsonView::Str(hv[i as int].0@));
        assert(members@[1].1.view() == JsonView::Bool(hv[i as int].1.connected));
        assert(members@[2].1.view() == opt_u64_view(hv[i as int].1.latency_ms));
        assert(members@[3].1.view() == opt_text_view(hv[i as int].1.error));
        let entry = JsonValue::Object(members);
        assert(entry.view()->Object_0 =~= channel_status_view(hv[i as int].0@, hv[i as int].1)->Object_0);
        items.push(entry);
        i = i + 1;
    }
    let v = JsonValue::Array(items);
    assert(v.view()->Array_0 =~= Seq::new(
        hv.len(),
        |i: int| channel_status_view(hv[i].0@, hv[i].1),
    ));
    RpcResponse::success(duplicate_id(id), v)
}

/// The answer to `config.get`: the whole configuration (as JSON), or the
/// value at the dotted key (`null` where the path does not lead anywhere).
pub fn config_get_response(id: &Option<RpcId>, config: &JsonValue, key: &Option<String>) -> (r:
    RpcResponse)
    ensures
        r.well_formed(),
        id_view(r.id) == id_view(*id),
        json_opt_view(r.result) == Some(
            match key {
                Some(k) => lookup_dotted(config.view(), k@),
                None => config.view(),
            },
        ),
{
    let v = match key {
        Some(k) => lookup_dotted_key(config, k.as_str()),
        None => config.deep_copy(),
    };
    RpcResponse::success(duplicate_id(id), v)
}

/// The answer to a frame that is not a JSON-RPC request (`detail` is the
/// parser's message).
pub fn parse_error_response(detail: &str) -> (r: RpcResponse)
    ensures
        r.well_formed(),
        r.id is None,
        r.error matches Some(e) && error_is(e, PARSE_ERROR, "Invalid JSON: "@ + detail@),
{
    let err = RpcError { code: PARSE_ERROR, message: concat2("Invalid JSON: ", detail), data: None };
    RpcResponse::error(None, err)
}

// ---------------------------------------------------------------------------
// Inbound message loop
// ---------------------------------------------------------------------------

/// Whether group messages need an @mention: the Feishu setting, `true` when
/// unset or when Feishu is not configured.
pub fn channels_require_mention(channels: &ChannelsConfig) -> (r: bool)
    ensures
        r == match channels.feishu {
            Some(f) => match f.require_mention {
                Some(b) => b,
                None => true,
            },
            None => true,
        },
{
    match &channels.feishu {
        Some(f) => f.requires_mention(),
        None => true,
    }
}

/// Whether the agent answers an inbound message: group messages that do not
/// mention the bot are ignored when mentions are required.
pub fn should_answer(msg: &InboundMessage, require_mention: bool) -> (r: bool)
    ensures
        r == !(msg.chat_type == ChatType::Group && !msg.mentions_bot && require_mention),
{
    let group = match msg.chat_type {
        ChatType::Group => true,
        ChatType::Direct => false,
    };
    !(group && !msg.mentions_bot && require_mention)
}

/// The agent's reply to an inbound message, addressed as a reply to it in
/// the same chat and channel.
pub fn reply_to_inbound(msg: InboundMessage, reply: String) -> (r: OutboundMessage)
    ensures
        r.channel@ == msg.channel@,
        r.chat_id@ == msg.chat_id@,
        r.text@ == reply@,
        r.reply_to matches Some(id) && id@ == msg.id@,
{
    OutboundMessage { channel: msg.channel, chat_id: msg.chat_id, text: reply, reply_to: Some(msg.id) }
}

/// Applies a `--port` override to the gateway configuration.
pub fn apply_port_override(gateway: &mut GatewayConfig, port: Option<u16>)
    ensures
        final(gateway).port == match port {
            Some(p) => p,
            None => old(gateway).port,
        },
        final(gateway).host == old(gateway).host,
        final(gateway).auth_token == old(gateway).auth_token,
{
    if let Some(p) = port {
        gateway.port = p;
    }
}

/// The log level: the configured one, `info` when logging is not configured.
pub fn log_level(logging: &Option<LoggingConfig>) -> (r: String)
    ensures
        r@ == match logging {
            Some(l) => l.level@,
            None => "info"@,
        },
{
    match logging {
        Some(l) => l.level.clone(),
        None => "info".to_owned(),
    }
}

/// `host:port`, the address the gateway listens on.
pub fn listen_addr(gateway: &GatewayConfig) -> (r: String)
    ensures
        r@ == gateway.host@ + ":"@ + decimal_spec(gateway.port as nat),
{
    let mut r = concat2(gateway.host.as_str(), ":");
    let p = fmt_u64(gateway.port as u64);
    r.append(p.as_str());
    r
}

/// `ws://host:port/ws`, where the CLI reaches a running gateway.
pub fn gateway_ws_url(host: &str, port: u16) -> (r: String)
    ensures
        r@ == "ws://"@ + host@ + ":"@ + decimal_spec(port as nat) + "/ws"@,
{
    let mut r = concat2("ws://", host);
    r.append(":");
    let p = fmt_u64(port as u64);
    r.append(p.as_str());
    r.append("/ws");
    r
}

// ---------------------------------------------------------------------------
// `opencrab channels status`
// ---------------------------------------------------------------------------

/// One row of the status table: three columns of widths 12, 12 and 10.
pub open spec fn table_row(a: Seq<char>, b: Seq<char>, c: Seq<char>) -> Seq<char> {
    pad_right_spec(a, 12) + " "@ + pad_right_spec(b, 12) + " "@ + pad_right_spec(c, 10)
}

/// One row of the status table.
pub fn format_row(a: &str, b: &str, c: &str) -> (r: String)
    ensures
        r@ == table_row(a@, b@, c@),
{
    let mut r = pad_right(a, 12);
    r.append(" ");
    let pb = pad_right(b, 12);
    r.append(pb.as_str());
    r.append(" ");
    let pc = pad_right(c, 10);
    r.append(pc.as_str());
    r
}

/// A channel entry's row: its id (`?` when missing), `connected` or
/// `disconnected`, and its latency in ms (`-` when unknown).
pub open spec fn status_row(entry: JsonView) -> Seq<char> {
    let id = match text_member(entry, "id"@) {
        Some(t) => t,
        None => "?"@,
    };
    let connected = match get_member(entry, "connected"@) {
        Some(JsonView::Bool(b)) => b,
        _ => false,
    };
    let latency = match get_member(entry, "latency_ms"@) {
        Some(JsonView::Number(NumberView::PosInt(ms))) => decimal_spec(ms) + "ms"@,
        _ => "-"@,
    };
    table_row(id, if connected { "connected"@ } else { "disconnected"@ }, latency)
}

/// The status table for the result of `channels.status`: a header, a rule,
/// then one row per channel; nothing when the result is not an array.
pub fn status_table(result: &JsonValue) -> (r: Option<Vec<String>>)
    ensures
        match result.view() {
            JsonView::Array(items) => (r matches Some(rows) && rows@.len() == items.len() + 2
                && rows@[0]@ == table_row("CHANNEL"@, "STATUS"@, "LATENCY"@) && rows@[1]@
                == Seq::new(36, |i: int| '-') && forall|i: int|
                0 <= i < items.len() ==> (#[trigger] rows@[i + 2])@ == status_row(items[i])),
            _ => r is None,
        },
{
    match result {
        JsonValue::Array(items) => {
            let mut rows: Vec<String> = Vec::new();
            rows.push(format_row("CHANNEL", "STATUS", "LATENCY"));
            rows.push(repeat_char('-', 36));
            let mut i: usize = 0;
            while i < items.len()
                invariant
                    *result == JsonValue::Array(*items),
                    i <= items@.len(),
                    rows@.len() == i + 2,
                    rows@[0]@ == table_row("CHANNEL"@, "STATUS"@, "LATENCY"@),
                    rows@[1]@ == Seq::new(36, |i: int| '-'),
                    forall|j: int|
                        0 <= j < i ==> (#[trigger] rows@[j + 2])@ == status_row(items@[j].view()),
                decreases items@.len() - i,
            {
                let entry = &items[i];
                let id = match entry.text_member("id") {
                    Some(t) => t.to_owned(),
                    None => "?".to_owned(),
                };
                let connected = match entry.get("connected") {
                    Some(JsonValue::Bool(b)) => *b,
                    _ => false,
                };
                let latency = match entry.get("latency_ms") {
                    Some(JsonValue::Number(JsonNumber::PosInt(ms))) => {
                        let mut l = fmt_u64(*ms);
                        l.append("ms");
                        l
                    },
                    _ => "-".to_owned(),
                };
                let status = if connected {
                    "connected"
                } else {
                    "disconnected"
                };
                let row = format_row(id.as_str(), status, latency.as_str());
                rows.push(row);
                i = i + 1;
            }
            assert(forall|j: int| 0 <= j < items@.len() ==> result.view()->Array_0[j] == items@[j].view());
            Some(rows)
        },
        _ => None,
    }
}

} // verus!
