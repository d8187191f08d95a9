use opencrab::channels::{ChannelHealth, ChatType, InboundMessage};
use opencrab::config::{ChannelsConfig, FeishuConfig, GatewayConfig, LoggingConfig};
use opencrab::gateway::{
    apply_port_override, channels_require_mention, channels_status_response, chat_response,
    config_get_response, expects_reply, format_row, gateway_ws_url, health_response, health_result,
    listen_addr, log_level, parse_error_response, reply_to_inbound, route_rpc,
    should_answer, status_table, RpcAction,
};
use opencrab::json::{lookup_dotted_key, JsonNumber, JsonValue};
use opencrab::protocol::{RpcId, RpcRequest};

fn s(x: &str) -> JsonValue {
    JsonValue::String(x.to_string())
}

fn obj(members: Vec<(&str, JsonValue)>) -> JsonValue {
    JsonValue::Object(members.into_iter().map(|(k, v)| (k.to_string(), v)).collect())
}

fn req(method: &str, params: Option<JsonValue>) -> RpcRequest {
    RpcRequest::new(method.to_string(), params, RpcId::Num(1))
}

fn inbound(chat_type: ChatType, mentions_bot: bool) -> InboundMessage {
    InboundMessage {
        id: "om_1".to_string(),
        channel: "feishu".to_string(),
        chat_id: "oc_1".to_string(),
        chat_type,
        sender_id: "ou_1".to_string(),
        sender_name: None,
        text: "hi".to_string(),
        reply_to: None,
        mentions_bot,
        timestamp: 0,
    }
}

#[test]
fn routes_known_methods() {
    assert!(matches!(route_rpc(&req("health", None)), RpcAction::Health));
    assert!(matches!(route_rpc(&req("channels.status", None)), RpcAction::ChannelsStatus));
    match route_rpc(&req("chat.send", Some(obj(vec![("text", s("你好"))])))) {
        RpcAction::Chat { text } => assert_eq!(text, "你好"),
        _ => panic!("chat"),
    }
    match route_rpc(&req("config.get", Some(obj(vec![("key", s("agent.model"))])))) {
        RpcAction::ConfigGet { key } => assert_eq!(key.as_deref(), Some("agent.model")),
        _ => panic!("config"),
    }
    match route_rpc(&req("config.get", None)) {
        RpcAction::ConfigGet { key } => assert!(key.is_none()),
        _ => panic!("config"),
    }
}

#[test]
fn chat_without_text_is_invalid_params() {
    match route_rpc(&req("chat.send", Some(obj(vec![("text", s(""))])))) {
        RpcAction::Respond(resp) => {
            assert!(resp.result.is_none());
            let e = resp.error.expect("error");
            assert_eq!(e.code, -32602);
            assert_eq!(e.message, "Missing 'text' parameter");
            assert!(matches!(resp.id, Some(RpcId::Num(1))));
        }
        _ => panic!("invalid params"),
    }
    assert!(matches!(route_rpc(&req("chat.send", None)), RpcAction::Respond(_)));
}

#[test]
fn unknown_method_is_reported() {
    match route_rpc(&req("foo.bar", None)) {
        RpcAction::Respond(resp) => {
            let e = resp.error.expect("error");
            assert_eq!(e.code, -32601);
            assert_eq!(e.message, "Method not found: foo.bar");
        }
        _ => panic!("method not found"),
    }
}

#[test]
fn health_answers() {
    match health_result(42) {
        JsonValue::Object(ms) => {
            assert_eq!(ms.len(), 2);
            assert_eq!(ms[0].0, "status");
            assert!(matches!(&ms[0].1, JsonValue::String(v) if v == "ok"));
            assert_eq!(ms[1].0, "uptime_secs");
            assert!(matches!(ms[1].1, JsonValue::Number(JsonNumber::PosInt(42))));
        }
        _ => panic!("object"),
    }
    let resp = health_response(&Some(RpcId::Num(3)), 5);
    assert!(resp.result.is_some() && resp.error.is_none());
    assert!(matches!(resp.id, Some(RpcId::Num(3))));
}

#[test]
fn chat_answers() {
    let ok = chat_response(&None, Ok("reply!".to_string()));
    match ok.result {
        Some(JsonValue::Object(ms)) => {
            assert_eq!(ms[0].0, "reply");
            assert!(matches!(&ms[0].1, JsonValue::String(v) if v == "reply!"));
        }
        _ => panic!("result"),
    }
    let failed = chat_response(&None, Err("timeout".to_string()));
    let e = failed.error.expect("error");
    assert_eq!(e.code, -32002);
    assert_eq!(e.message, "Agent error: timeout");
    let parse = parse_error_response("EOF while parsing");
    let e = parse.error.expect("error");
    assert_eq!(e.code, -32700);
    assert_eq!(e.message, "Invalid JSON: EOF while parsing");
    assert!(parse.id.is_none());
}

#[test]
fn channel_status_answers_and_table() {
    let health = vec![
        (
            "feishu".to_string(),
            ChannelHealth { connected: true, latency_ms: None, error: None },
        ),
        (
            "slack".to_string(),
            ChannelHealth { connected: false, latency_ms: Some(12), error: Some("x".to_string()) },
        ),
    ];
    let resp = channels_status_response(&Some(RpcId::Num(1)), health);
    let result = resp.result.expect("result");
    let rows = status_table(&result).expect("array");
    assert_eq!(rows.len(), 4);
    assert_eq!(rows[0], "CHANNEL      STATUS       LATENCY   ");
    assert_eq!(rows[1], "-".repeat(36));
    assert_eq!(rows[2], "feishu       connected    -         ");
    assert_eq!(rows[3], "slack        disconnected 12ms      ");
    assert!(status_table(&JsonValue::Null).is_none());
    assert_eq!(format_row("a", "b", "c"), format!("{:<12} {:<12} {:<10}", "a", "b", "c"));
}

#[test]
fn config_get_follows_dotted_keys() {
    let config = obj(vec![
        ("agent", obj(vec![("model", s("gpt-4o")), ("provider", s("openai"))])),
        ("gateway", obj(vec![("port", JsonValue::Number(JsonNumber::PosInt(18789)))])),
    ]);
    match lookup_dotted_key(&config, "agent.model") {
        JsonValue::String(m) => assert_eq!(m, "gpt-4o"),
        _ => panic!("model"),
    }
    assert!(matches!(lookup_dotted_key(&config, "agent.missing"), JsonValue::Null));
    assert!(matches!(lookup_dotted_key(&config, "agent.model.deeper"), JsonValue::Null));
    assert!(matches!(
        lookup_dotted_key(&config, "gateway.port"),
        JsonValue::Number(JsonNumber::PosInt(18789))
    ));
    let resp = config_get_response(&None, &config, &Some("agent.provider".to_string()));
    assert!(matches!(resp.result, Some(JsonValue::String(ref p)) if p == "openai"));
    let whole = config_get_response(&None, &config, &None);
    assert!(matches!(whole.result, Some(JsonValue::Object(ref ms)) if ms.len() == 2));
}

#[test]
fn inbound_filter_and_reply() {
    assert!(!should_answer(&inbound(ChatType::Group, false), true));
    assert!(should_answer(&inbound(ChatType::Group, false), false));
    assert!(should_answer(&inbound(ChatType::Group, true), true));
    assert!(should_answer(&inbound(ChatType::Direct, false), true));
    let out = reply_to_inbound(inbound(ChatType::Direct, false), "answer".to_string());
    assert_eq!(out.channel, "feishu");
    assert_eq!(out.chat_id, "oc_1");
    assert_eq!(out.text, "answer");
    assert_eq!(out.reply_to.as_deref(), Some("om_1"));
}

#[test]
fn gateway_settings() {
    let mut g = GatewayConfig { host: "0.0.0.0".to_string(), port: 18789, auth_token: None };
    apply_port_override(&mut g, None);
    assert_eq!(g.port, 18789);
    apply_port_override(&mut g, Some(8080));
    assert_eq!(g.port, 8080);
    assert_eq!(listen_addr(&g), "0.0.0.0:8080");
    assert_eq!(gateway_ws_url("127.0.0.1", 18789), "ws://127.0.0.1:18789/ws");
    assert_eq!(log_level(&None), "info");
    assert_eq!(log_level(&Some(LoggingConfig { level: "debug".to_string() })), "debug");
    assert!(channels_require_mention(&ChannelsConfig { feishu: None }));
    let feishu = FeishuConfig {
        enabled: true,
        app_id: "a".to_string(),
        app_secret: "b".to_string(),
        encrypt_key: None,
        verification_token: None,
        domain: None,
        connection_mode: None,
        webhook_port: None,
        require_mention: Some(false),
    };
    assert!(!channels_require_mention(&ChannelsConfig { feishu: Some(feishu) }));
}

#[test]
fn config_get_carries_floats() {
    let t = match serde_json::Number::from_f64(0.7) {
        Some(n) => n,
        None => panic!("0.7 is finite"),
    };
    let config = obj(vec![(
        "agent",
        obj(vec![("temperature", JsonValue::Number(JsonNumber::Float(t)))]),
    )]);
    match lookup_dotted_key(&config, "agent.temperature") {
        JsonValue::Number(JsonNumber::Float(n)) => assert_eq!(n.as_f64(), Some(0.7)),
        _ => panic!("the temperature is carried as it is"),
    }
    match lookup_dotted_key(&config, "agent") {
        JsonValue::Object(ms) => match &ms[0].1 {
            JsonValue::Number(JsonNumber::Float(n)) => assert_eq!(n.as_f64(), Some(0.7)),
            _ => panic!("the temperature is carried as it is"),
        },
        _ => panic!("agent is an object"),
    }
}

#[test]
fn notifications_are_not_answered() {
    assert!(expects_reply(&req("health", None)));
    assert!(!expects_reply(&RpcRequest::notification("health".to_string(), None)));
}
