use opencrab::channels::ChatType;
use opencrab::feishu::{
    begin_event, finish_event, handle_frame, next_action, LoopAction, SocketEvent, reply_body, reply_url, send_body, send_url,
    sent_message_id, text_content, text_content_from, token_body, token_url, user_name_from,
    user_url, ws_endpoint_body, ws_url_from, ApiResponse, EventError, EventStep, FeishuError,
    FrameOutcome, MessageCall, PbFrame, PbHeader, SeenIds, TokenCache, TokenResponse,
    WsEndpointData, WsEndpointResponse, MAX_SEEN_IDS,
};
use opencrab::json::{lookup_dotted_key, JsonValue};

fn s(x: &str) -> JsonValue {
    JsonValue::String(x.to_string())
}

fn obj(members: Vec<(&str, JsonValue)>) -> JsonValue {
    JsonValue::Object(members.into_iter().map(|(k, v)| (k.to_string(), v)).collect())
}

fn frame(method: i32, kind: Option<&str>, payload: Option<Vec<u8>>) -> PbFrame {
    let mut headers = vec![PbHeader { key: "message_id".to_string(), value: "m1".to_string() }];
    if let Some(k) = kind {
        headers.push(PbHeader { key: "type".to_string(), value: k.to_string() });
    }
    PbFrame {
        seq_id: 7,
        log_id: 8,
        service: 3,
        method,
        headers,
        payload_encoding: None,
        payload_type: Some("json".to_string()),
        payload,
        log_id_new: None,
    }
}

fn message_event(id: &str, chat_type: &str, mentions: Option<Vec<JsonValue>>) -> JsonValue {
    let mut message = vec![
        ("message_id", s(id)),
        ("chat_id", s("oc_chat")),
        ("chat_type", s(chat_type)),
        ("message_type", s("text")),
        ("content", s("{\"text\":\"@_user_1 hello bot\"}")),
    ];
    if let Some(m) = mentions {
        message.push(("mentions", JsonValue::Array(m)));
    }
    obj(vec![
        (
            "header",
            obj(vec![
                ("event_type", s("im.message.receive_v1")),
                ("create_time", s("1700000000123")),
            ]),
        ),
        (
            "event",
            obj(vec![
                ("message", obj(message)),
                ("sender", obj(vec![("sender_id", obj(vec![("open_id", s("ou_sender"))]))])),
            ]),
        ),
    ])
}

#[test]
fn get_header_finds_first_match() {
    let f = frame(1, Some("event"), None);
    assert_eq!(f.get_header("type"), Some("event"));
    assert_eq!(f.get_header("message_id"), Some("m1"));
    assert_eq!(f.get_header("nope"), None);
}

#[test]
fn control_frames_are_noted() {
    match handle_frame(&frame(0, Some("pong"), None)) {
        FrameOutcome::Control { kind } => assert_eq!(kind, "pong"),
        _ => panic!("control frame"),
    }
    match handle_frame(&frame(0, None, None)) {
        FrameOutcome::Control { kind } => assert_eq!(kind, ""),
        _ => panic!("control frame"),
    }
    assert!(matches!(handle_frame(&frame(5, None, None)), FrameOutcome::Ignored));
}

#[test]
fn data_frames_are_acknowledged() {
    assert!(matches!(handle_frame(&frame(1, Some("event"), None)), FrameOutcome::EmptyPayload));
    assert!(matches!(
        handle_frame(&frame(1, Some("event"), Some(Vec::new()))),
        FrameOutcome::EmptyPayload
    ));
    let f = frame(1, Some("event"), Some(b"{\"a\":1}".to_vec()));
    match handle_frame(&f) {
        FrameOutcome::Acknowledge { event, ack } => {
            assert_eq!(event.as_deref(), Some("{\"a\":1}"));
            assert_eq!(ack.payload.as_deref(), Some(&b"{\"code\":200}"[..]));
            assert_eq!(ack.seq_id, 7);
            assert_eq!(ack.log_id, 8);
            assert_eq!(ack.headers.len(), 2);
            assert_eq!(ack.payload_type.as_deref(), Some("json"));
        }
        _ => panic!("acknowledged"),
    }
    match handle_frame(&frame(1, Some("card"), Some(vec![1, 2]))) {
        FrameOutcome::Acknowledge { event, .. } => assert!(event.is_none()),
        _ => panic!("acknowledged"),
    }
    assert!(matches!(
        handle_frame(&frame(1, Some("event"), Some(vec![0xff, 0xfe]))),
        FrameOutcome::BadPayload
    ));
}

#[test]
fn message_events_become_inbound_messages() {
    let mut seen = SeenIds::new();
    let mention = obj(vec![("key", s("@_user_1"))]);
    let value = message_event("om_1", "group", Some(vec![mention]));
    let pending = match begin_event(&value, &mut seen) {
        EventStep::Pending(p) => p,
        _ => panic!("pending"),
    };
    assert_eq!(seen.len(), 1);
    assert_eq!(pending.content, "{\"text\":\"@_user_1 hello bot\"}");
    let content = obj(vec![("text", s("@_user_1 hello bot"))]);
    let msg = finish_event(pending, &content, true).expect("message");
    assert_eq!(msg.id, "om_1");
    assert_eq!(msg.channel, "feishu");
    assert_eq!(msg.chat_id, "oc_chat");
    assert!(msg.chat_type == ChatType::Group);
    assert_eq!(msg.sender_id, "ou_sender");
    assert_eq!(msg.text, "hello bot");
    assert!(msg.mentions_bot);
    assert_eq!(msg.timestamp, 1700000000123);
    assert!(msg.reply_to.is_none());
    assert!(msg.sender_name.is_none());
}

#[test]
fn duplicate_events_are_skipped() {
    let mut seen = SeenIds::new();
    let value = message_event("om_dup", "p2p", None);
    assert!(matches!(begin_event(&value, &mut seen), EventStep::Pending(_)));
    assert!(matches!(begin_event(&value, &mut seen), EventStep::Skipped));
    assert_eq!(seen.len(), 1);
    assert!(seen.contains("om_dup"));
}

#[test]
fn group_messages_without_mention_are_dropped() {
    let mut seen = SeenIds::new();
    let value = message_event("om_g", "group", None);
    let pending = match begin_event(&value, &mut seen) {
        EventStep::Pending(p) => p,
        _ => panic!("pending"),
    };
    let content = obj(vec![("text", s("hi"))]);
    assert!(finish_event(pending, &content, true).is_none());

    let mut seen = SeenIds::new();
    let pending = match begin_event(&value, &mut seen) {
        EventStep::Pending(p) => p,
        _ => panic!("pending"),
    };
    let msg = finish_event(pending, &content, false).expect("mentions not required");
    assert_eq!(msg.text, "hi");
    assert!(!msg.mentions_bot);
}

#[test]
fn direct_messages_and_empty_text() {
    let mut seen = SeenIds::new();
    let value = message_event("om_d", "p2p", None);
    let pending = match begin_event(&value, &mut seen) {
        EventStep::Pending(p) => p,
        _ => panic!("pending"),
    };
    assert!(pending.chat_type == ChatType::Direct);
    assert!(finish_event(pending, &JsonValue::Null, true).is_none());
}

#[test]
fn malformed_events_fail() {
    let mut seen = SeenIds::new();
    assert!(matches!(
        begin_event(&obj(vec![]), &mut seen),
        EventStep::Failed(EventError::MissingHeader)
    ));
    let other = obj(vec![("header", obj(vec![("event_type", s("im.chat.updated"))]))]);
    assert!(matches!(begin_event(&other, &mut seen), EventStep::Skipped));
    let no_body = obj(vec![("header", obj(vec![("event_type", s("im.message.receive_v1"))]))]);
    assert!(matches!(
        begin_event(&no_body, &mut seen),
        EventStep::Failed(EventError::MissingEventBody)
    ));
    let no_msg = obj(vec![
        ("header", obj(vec![("event_type", s("im.message.receive_v1"))])),
        ("event", obj(vec![])),
    ]);
    assert!(matches!(
        begin_event(&no_msg, &mut seen),
        EventStep::Failed(EventError::MissingMessage)
    ));
    let no_sender = obj(vec![
        ("header", obj(vec![("event_type", s("im.message.receive_v1"))])),
        ("event", obj(vec![("message", obj(vec![]))])),
    ]);
    assert!(matches!(
        begin_event(&no_sender, &mut seen),
        EventStep::Failed(EventError::MissingSender)
    ));
    assert_eq!(seen.len(), 0);
}

#[test]
fn unsupported_message_types_are_skipped_but_remembered() {
    let mut seen = SeenIds::new();
    let value = obj(vec![
        ("header", obj(vec![("event_type", s("im.message.receive_v1"))])),
        (
            "event",
            obj(vec![
                ("message", obj(vec![("message_id", s("om_img")), ("message_type", s("image"))])),
                ("sender", obj(vec![])),
            ]),
        ),
    ]);
    assert!(matches!(begin_event(&value, &mut seen), EventStep::Skipped));
    assert!(seen.contains("om_img"));
}

#[test]
fn seen_ids_reset_when_full() {
    let mut seen = SeenIds::new();
    for i in 0..MAX_SEEN_IDS {
        seen.record(format!("id{i}"));
    }
    assert_eq!(seen.len(), MAX_SEEN_IDS);
    seen.record("one-more".to_string());
    assert_eq!(seen.len(), 0);
    assert!(!seen.contains("id0"));
}

#[test]
fn token_cache_serves_until_margin() {
    let mut cache = TokenCache::new();
    assert!(cache.valid_token(0).is_none());
    let resp = TokenResponse {
        code: 0,
        msg: "ok".to_string(),
        tenant_access_token: Some("t-1".to_string()),
        expire: Some(1000),
    };
    match cache.accept(resp, 10_000) {
        Ok(t) => assert_eq!(t, "t-1"),
        Err(_) => panic!("accepted"),
    }
    // Expires at 1_010_000 ms; served while now + 300_000 < that.
    assert_eq!(cache.valid_token(709_999).as_deref(), Some("t-1"));
    assert!(cache.valid_token(710_000).is_none());
}

#[test]
fn token_cache_default_lifetime_and_errors() {
    let mut cache = TokenCache::new();
    let refused = TokenResponse {
        code: 99991663,
        msg: "invalid app".to_string(),
        tenant_access_token: None,
        expire: None,
    };
    match cache.accept(refused, 0) {
        Err(e) => assert_eq!(e.message(), "Feishu auth error (code 99991663): invalid app"),
        Ok(_) => panic!("refused"),
    }
    let missing = TokenResponse { code: 0, msg: String::new(), tenant_access_token: None, expire: None };
    assert!(matches!(cache.accept(missing, 0), Err(FeishuError::MissingToken)));
    assert!(cache.valid_token(0).is_none());
    let ok = TokenResponse {
        code: 0,
        msg: String::new(),
        tenant_access_token: Some("t-2".to_string()),
        expire: None,
    };
    assert!(cache.accept(ok, 0).is_ok());
    assert_eq!(cache.valid_token(6_899_999).as_deref(), Some("t-2"));
    assert!(cache.valid_token(6_900_000).is_none());
}

#[test]
fn api_answers() {
    let ok = ApiResponse {
        code: 0,
        msg: "success".to_string(),
        data: Some(obj(vec![("message_id", s("om_new"))])),
    };
    match sent_message_id(&ok, MessageCall::Send) {
        Ok(id) => assert_eq!(id, "om_new"),
        Err(_) => panic!("ok"),
    }
    let no_data = ApiResponse { code: 0, msg: String::new(), data: None };
    match sent_message_id(&no_data, MessageCall::Reply) {
        Ok(id) => assert_eq!(id, ""),
        Err(_) => panic!("ok"),
    }
    let refused = ApiResponse { code: -5, msg: "nope".to_string(), data: None };
    match sent_message_id(&refused, MessageCall::Send) {
        Err(e) => assert_eq!(e.message(), "Feishu send error (code -5): nope"),
        Ok(_) => panic!("refused"),
    }
    match sent_message_id(&refused, MessageCall::Reply) {
        Err(e) => assert_eq!(e.message(), "Feishu reply error (code -5): nope"),
        Ok(_) => panic!("refused"),
    }
    let user = ApiResponse {
        code: 0,
        msg: String::new(),
        data: Some(obj(vec![("user", obj(vec![("name", s("Alice"))]))])),
    };
    assert_eq!(user_name_from(&user, "ou_1"), "Alice");
    assert_eq!(user_name_from(&refused, "ou_1"), "ou_1");
    assert_eq!(user_name_from(&no_data, "ou_2"), "ou_2");
}

#[test]
fn ws_endpoint_answers() {
    let ok = WsEndpointResponse {
        code: 0,
        msg: String::new(),
        data: Some(WsEndpointData { url: Some("wss://x/ws".to_string()) }),
    };
    match ws_url_from(&ok) {
        Ok(u) => assert_eq!(u, "wss://x/ws"),
        Err(_) => panic!("ok"),
    }
    let no_url = WsEndpointResponse { code: 0, msg: String::new(), data: None };
    match ws_url_from(&no_url) {
        Err(e) => assert_eq!(e.message(), "No WebSocket URL in response"),
        Ok(_) => panic!("no url"),
    }
    let refused = WsEndpointResponse { code: 1000040345, msg: "system busy".to_string(), data: None };
    match ws_url_from(&refused) {
        Err(e) => assert_eq!(e.message(), "Feishu WS endpoint error (code 1000040345): system busy"),
        Ok(_) => panic!("refused"),
    }
}

#[test]
fn api_urls() {
    let base = "https://open.feishu.cn/open-apis";
    assert_eq!(token_url(base), "https://open.feishu.cn/open-apis/auth/v3/tenant_access_token/internal");
    assert_eq!(send_url(base), "https://open.feishu.cn/open-apis/im/v1/messages?receive_id_type=chat_id");
    assert_eq!(reply_url(base, "om_1"), "https://open.feishu.cn/open-apis/im/v1/messages/om_1/reply");
    assert_eq!(user_url(base, "ou_1"), "https://open.feishu.cn/open-apis/contact/v3/users/ou_1?user_id_type=open_id");
}

fn member(v: &JsonValue, key: &str) -> String {
    match lookup_dotted_key(v, key) {
        JsonValue::String(t) => t,
        _ => panic!("{key} is a string member"),
    }
}

fn member_count(v: &JsonValue) -> usize {
    match v {
        JsonValue::Object(ms) => ms.len(),
        _ => panic!("an object"),
    }
}

#[test]
fn request_bodies() {
    assert_eq!(text_content("hello"), r#"{"text":"hello"}"#);
    assert_eq!(text_content("say \"hi\"\n"), r#"{"text":"say \"hi\"\n"}"#);
    assert_eq!(text_content_from("\"x\""), r#"{"text":"x"}"#);

    let b = send_body("oc_1", "text", r#"{"text":"hi"}"#);
    assert_eq!(member_count(&b), 3);
    assert_eq!(member(&b, "receive_id"), "oc_1");
    assert_eq!(member(&b, "msg_type"), "text");
    assert_eq!(member(&b, "content"), r#"{"text":"hi"}"#);

    let b = reply_body("c");
    assert_eq!(member_count(&b), 2);
    assert_eq!(member(&b, "msg_type"), "text");
    assert_eq!(member(&b, "content"), "c");

    let b = token_body("cli_a", "sec");
    assert_eq!(member(&b, "app_id"), "cli_a");
    assert_eq!(member(&b, "app_secret"), "sec");

    let b = ws_endpoint_body("cli_a", "sec");
    assert_eq!(member(&b, "AppID"), "cli_a");
    assert_eq!(member(&b, "AppSecret"), "sec");
}

#[test]
fn token_cache_takes_any_lifetime() {
    let mut cache = TokenCache::new();
    let resp = TokenResponse {
        code: 0,
        msg: String::new(),
        tenant_access_token: Some("t-long".to_string()),
        expire: Some(100_000_000_000_000_000),
    };
    assert_eq!(cache.accept(resp, 1000).ok().as_deref(), Some("t-long"));
    assert_eq!(cache.valid_token(u64::MAX).as_deref(), Some("t-long"));
    let resp = TokenResponse {
        code: 0,
        msg: String::new(),
        tenant_access_token: Some("t-max".to_string()),
        expire: Some(u64::MAX),
    };
    assert_eq!(cache.accept(resp, u64::MAX).ok().as_deref(), Some("t-max"));
    assert_eq!(cache.valid_token(u64::MAX).as_deref(), Some("t-max"));
}

#[test]
fn text_content_escapes_like_serde_json() {
    assert_eq!(text_content("a\u{1}b\tc\\"), "{\"text\":\"a\\u0001b\\tc\\\\\"}");
    assert_eq!(text_content("\u{1f}\u{8}\u{c}\r\u{7f}\u{e9}"), "{\"text\":\"\\u001f\\b\\f\\r\u{7f}\u{e9}\"}");
}

#[test]
fn event_loop_decisions() {
    assert!(matches!(next_action(&SocketEvent::Shutdown { stop: true }), LoopAction::Stop));
    assert!(matches!(next_action(&SocketEvent::Shutdown { stop: false }), LoopAction::Continue));
    assert!(matches!(next_action(&SocketEvent::Binary), LoopAction::HandleFrame));
    for e in [SocketEvent::Closed, SocketEvent::Failed, SocketEvent::Ended] {
        assert!(matches!(next_action(&e), LoopAction::Reconnect));
    }
    for e in [SocketEvent::Text, SocketEvent::Ping, SocketEvent::Other] {
        assert!(matches!(next_action(&e), LoopAction::Continue));
    }
}
