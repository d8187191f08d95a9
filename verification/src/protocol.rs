use vstd::prelude::*;

use crate::json::{JsonValue, JsonView};
use crate::text::concat2;

verus! {

/// Standard JSON-RPC 2.0 error codes.
pub const PARSE_ERROR: i32 = -32700;
pub const INVALID_REQUEST: i32 = -32600;
pub const METHOD_NOT_FOUND: i32 = -32601;
pub const INVALID_PARAMS: i32 = -32602;
pub const INTERNAL_ERROR: i32 = -32603;

/// Application-specific error codes (reserved range: -32000 to -32099).
pub const AUTH_REQUIRED: i32 = -32000;
pub const CHANNEL_NOT_FOUND: i32 = -32001;
pub const AGENT_ERROR: i32 = -32002;
pub const CONFIG_ERROR: i32 = -32003;

/// Gateway error type.
pub enum GatewayError {
    AuthRequired,
    MethodNotFound(String),
    InvalidParams(String),
    ChannelNotFound(String),
    AgentError(String),
    ConfigError(String),
    Internal(String),
}

impl GatewayError {
    /// The JSON-RPC error code of each kind of error.
    pub open spec fn code_of(&self) -> i32 {
        match self {
            GatewayError::AuthRequired => AUTH_REQUIRED,
            GatewayError::MethodNotFound(_) => METHOD_NOT_FOUND,
            GatewayError::InvalidParams(_) => INVALID_PARAMS,
            GatewayError::ChannelNotFound(_) => CHANNEL_NOT_FOUND,
            GatewayError::AgentError(_) => AGENT_ERROR,
            GatewayError::ConfigError(_) => CONFIG_ERROR,
            GatewayError::Internal(_) => INTERNAL_ERROR,
        }
    }

    /// The human-readable text of each kind of error.
    pub open spec fn message_of(&self) -> Seq<char> {
        match self {
            GatewayError::AuthRequired => "Authentication required"@,
            GatewayError::MethodNotFound(s) => "Method not found: "@ + s@,
            GatewayError::InvalidParams(s) => "Invalid parameters: "@ + s@,
            GatewayError::ChannelNotFound(s) => "Channel not found: "@ + s@,
            GatewayError::AgentError(s) => "Agent error: "@ + s@,
            GatewayError::ConfigError(s) => "Configuration error: "@ + s@,
            GatewayError::Internal(s) => "Internal error: "@ + s@,
        }
    }

    /// Convert to a JSON-RPC error code.
    pub fn code(&self) -> (c: i32)
        ensures
            c == self.code_of(),
    {
        match self {
            GatewayError::AuthRequired => AUTH_REQUIRED,
            GatewayError::MethodNotFound(_) => METHOD_NOT_FOUND,
            GatewayError::InvalidParams(_) => INVALID_PARAMS,
            GatewayError::ChannelNotFound(_) => CHANNEL_NOT_FOUND,
            GatewayError::AgentError(_) => AGENT_ERROR,
            GatewayError::ConfigError(_) => CONFIG_ERROR,
            GatewayError::Internal(_) => INTERNAL_ERROR,
        }
    }

    /// The error's text, as the error prints it.
    pub fn message(&self) -> (m: String)
        ensures
            m@ == self.message_of(),
    {
        match self {
            GatewayError::AuthRequired => "Authentication required".to_owned(),
            GatewayError::MethodNotFound(s) => concat2("Method not found: ", s.as_str()),
            GatewayError::InvalidParams(s) => concat2("Invalid parameters: ", s.as_str()),
            GatewayError::ChannelNotFound(s) => concat2("Channel not found: ", s.as_str()),
            GatewayError::AgentError(s) => concat2("Agent error: ", s.as_str()),
            GatewayError::ConfigError(s) => concat2("Configuration error: ", s.as_str()),
            GatewayError::Internal(s) => concat2("Internal error: ", s.as_str()),
        }
    }

    /// Convert to an `RpcError`.
    pub fn to_rpc_error(&self) -> (e: RpcError)
        ensures
            e.code == self.code_of(),
            e.message@ == self.message_of(),
            e.data is None,
    {
        RpcError { code: self.code(), message: self.message(), data: None }
    }
}

/// Events pushed from the gateway to connected clients.
pub enum GatewayEvent {
    /// A complete chat message.
    ChatMessage { text: String, channel: String, sender: String },
    /// A streaming text delta.
    StreamDelta { delta: String, done: bool },
    /// Channel connection status change.
    ChannelStatus { channel: String, status: String },
    /// Gateway health heartbeat.
    Health { uptime_secs: u64 },
}

/// JSON-RPC 2.0 request/response identifier.
pub enum RpcId {
    Num(i64),
    Str(String),
}

/// Mathematical model of an identifier.
pub enum RpcIdView {
    Num(int),
    Str(Seq<char>),
}

impl RpcId {
    pub open spec fn view(&self) -> RpcIdView {
        match self {
            RpcId::Num(n) => RpcIdView::Num(*n as int),
            RpcId::Str(s) => RpcIdView::Str(s@),
        }
    }

    /// A copy of this identifier.
    pub fn duplicate(&self) -> (r: RpcId)
        ensures
            r.view() == self.view(),
    {
        match self {
            RpcId::Num(n) => RpcId::Num(*n),
            RpcId::Str(s) => RpcId::Str(s.clone()),
        }
    }
}

/// The model of an optional identifier.
pub open spec fn id_view(id: Option<RpcId>) -> Option<RpcIdView> {
    match id {
        Some(i) => Some(i.view()),
        None => None,
    }
}

/// A copy of an optional identifier.
pub fn duplicate_id(id: &Option<RpcId>) -> (r: Option<RpcId>)
    ensures
        id_view(r) == id_view(*id),
{
    match id {
        Some(i) => Some(i.duplicate()),
        None => None,
    }
}

/// The model of an optional JSON value.
pub open spec fn json_opt_view(v: Option<JsonValue>) -> Option<JsonView> {
    match v {
        Some(j) => Some(j.view()),
        None => None,
    }
}

/// JSON-RPC 2.0 request frame.
pub struct RpcRequest {
    pub jsonrpc: String,
    pub method: String,
    pub params: Option<JsonValue>,
    pub id: Option<RpcId>,
}

/// JSON-RPC 2.0 error object.
pub struct RpcError {
    pub code: i32,
    pub message: String,
    pub data: Option<JsonValue>,
}

/// JSON-RPC 2.0 response frame.
pub struct RpcResponse {
    pub jsonrpc: String,
    pub id: Option<RpcId>,
    pub result: Option<JsonValue>,
    pub error: Option<RpcError>,
}

impl RpcRequest {
    /// Create a new JSON-RPC 2.0 request.
    pub fn new(method: String, params: Option<JsonValue>, id: RpcId) -> (r: Self)
        ensures
            r.jsonrpc@ == "2.0"@,
            r.method@ == method@,
            json_opt_view(r.params) == json_opt_view(params),
            id_view(r.id) == Some(id.view()),
    {
        RpcRequest { jsonrpc: "2.0".to_owned(), method, params, id: Some(id) }
    }

    /// Create a notification (no id, no response expected).
    pub fn notification(method: String, params: Option<JsonValue>) -> (r: Self)
        ensures
            r.jsonrpc@ == "2.0"@,
            r.method@ == method@,
            json_opt_view(r.params) == json_opt_view(params),
            r.id is None,
    {
        RpcRequest { jsonrpc: "2.0".to_owned(), method, params, id: None }
    }
}

impl RpcResponse {
    /// A well-formed JSON-RPC 2.0 response carries exactly one of `result`
    /// and `error`.
    pub open spec fn well_formed(&self) -> bool {
        &&& self.jsonrpc@ == "2.0"@
        &&& (self.result is Some) != (self.error is Some)
    }

    /// Create a success response.
    pub fn success(id: Option<RpcId>, result: JsonValue) -> (r: Self)
        ensures
            r.well_formed(),
            id_view(r.id) == id_view(id),
            json_opt_view(r.result) == Some(result.view()),
            r.error is None,
    {
        RpcResponse { jsonrpc: "2.0".to_owned(), id, result: Some(result), error: None }
    }

    /// Create an error response.
    pub fn error(id: Option<RpcId>, error: RpcError) -> (r: Self)
        ensures
            r.well_formed(),
            id_view(r.id) == id_view(id),
            r.result is None,
            r.error == Some(error),
    {
        RpcResponse { jsonrpc: "2.0".to_owned(), id, result: None, error: Some(error) }
    }
}

} // verus!
