use opencrab::json::JsonValue;
use opencrab::protocol::{
    GatewayError, GatewayEvent, RpcError, RpcId, RpcRequest, RpcResponse, AGENT_ERROR,
    AUTH_REQUIRED, CHANNEL_NOT_FOUND, CONFIG_ERROR, INTERNAL_ERROR, INVALID_PARAMS,
    INVALID_REQUEST, METHOD_NOT_FOUND, PARSE_ERROR,
};

#[test]
fn error_codes_are_standard() {
    assert_eq!(PARSE_ERROR, -32700);
    assert_eq!(INVALID_REQUEST, -32600);
    assert_eq!(METHOD_NOT_FOUND, -32601);
    assert_eq!(INVALID_PARAMS, -32602);
    assert_eq!(INTERNAL_ERROR, -32603);
    assert_eq!(AUTH_REQUIRED, -32000);
    assert_eq!(CHANNEL_NOT_FOUND, -32001);
    assert_eq!(AGENT_ERROR, -32002);
    assert_eq!(CONFIG_ERROR, -32003);
}

#[test]
fn gateway_error_codes_and_messages() {
    let cases = vec![
        (GatewayError::AuthRequired, -32000, "Authentication required"),
        (GatewayError::MethodNotFound("x.y".to_string()), -32601, "Method not found: x.y"),
        (GatewayError::InvalidParams("bad".to_string()), -32602, "Invalid parameters: bad"),
        (GatewayError::ChannelNotFound("qq".to_string()), -32001, "Channel not found: qq"),
        (GatewayError::AgentError("boom".to_string()), -32002, "Agent error: boom"),
        (GatewayError::ConfigError("c".to_string()), -32003, "Configuration error: c"),
        (GatewayError::Internal("i".to_string()), -32603, "Internal error: i"),
    ];
    for (err, code, message) in cases {
        assert_eq!(err.code(), code);
        assert_eq!(err.message(), message);
        let rpc = err.to_rpc_error();
        assert_eq!(rpc.code, code);
        assert_eq!(rpc.message, message);
        assert!(rpc.data.is_none());
    }
}

#[test]
fn request_constructors() {
    let params = JsonValue::Object(vec![(
        "text".to_string(),
        JsonValue::String("hello".to_string()),
    )]);
    let req = RpcRequest::new("chat.send".to_string(), Some(params), RpcId::Num(1));
    assert_eq!(req.jsonrpc, "2.0");
    assert_eq!(req.method, "chat.send");
    assert!(matches!(req.id, Some(RpcId::Num(1))));
    assert!(req.params.is_some());

    let note = RpcRequest::notification("health".to_string(), None);
    assert_eq!(note.jsonrpc, "2.0");
    assert_eq!(note.method, "health");
    assert!(note.id.is_none());
    assert!(note.params.is_none());
}

#[test]
fn success_response_has_result_only() {
    let resp = RpcResponse::success(
        Some(RpcId::Str("a".to_string())),
        JsonValue::Object(vec![("status".to_string(), JsonValue::String("ok".to_string()))]),
    );
    assert_eq!(resp.jsonrpc, "2.0");
    assert!(resp.result.is_some());
    assert!(resp.error.is_none());
    assert!(matches!(resp.id, Some(RpcId::Str(ref s)) if s == "a"));
}

#[test]
fn error_response_has_error_only() {
    let resp = RpcResponse::error(
        Some(RpcId::Num(1)),
        RpcError { code: -32600, message: "Invalid request".to_string(), data: None },
    );
    assert_eq!(resp.jsonrpc, "2.0");
    assert!(resp.result.is_none());
    let err = resp.error.expect("error present");
    assert_eq!(err.code, -32600);
    assert_eq!(err.message, "Invalid request");
}

#[test]
fn ids_copy() {
    let id = RpcId::Str("x".to_string());
    assert!(matches!(id.duplicate(), RpcId::Str(ref s) if s == "x"));
    assert!(matches!(RpcId::Num(-4).duplicate(), RpcId::Num(-4)));
    let ev = GatewayEvent::Health { uptime_secs: 42 };
    assert!(matches!(ev, GatewayEvent::Health { uptime_secs: 42 }));
}
