//! JSON-RPC envelopes. Identifiers, parameters and results are held as JSON text.
use vstd::prelude::*;

verus! {

/// The protocol version that every message carries.
pub const JSONRPC_VERSION: &'static str = "2.0";

/// A request.
#[derive(Debug, Clone, PartialEq)]
pub struct Request {
    pub jsonrpc: String,
    pub id: String,
    pub method: String,
    pub params: String,
}

/// A reply to a request.
#[derive(Debug, Clone, PartialEq)]
pub enum Response {
    Success { jsonrpc: String, id: String, result: String },
    Failure { jsonrpc: String, id: String, error: ErrorObject },
}

/// Why a request failed.
#[derive(Debug, Clone, PartialEq)]
pub struct ErrorObject {
    pub code: i32,
    pub message: String,
    pub data: Option<String>,
}

/// A message that expects no reply.
#[derive(Debug, Clone, PartialEq)]
pub struct Notification {
    pub jsonrpc: String,
    pub method: String,
    pub params: String,
}

/// `ping` request.
#[derive(Debug, Clone, PartialEq)]
pub struct PingRequest;

impl PingRequest {
    pub const METHOD: &'static str = "ping";
}

/// `ping` response.
#[derive(Debug, Clone, PartialEq)]
pub struct PingResponse {
    pub pong: bool,
    pub server_version: String,
}

} // verus!
