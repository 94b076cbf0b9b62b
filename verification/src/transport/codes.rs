//! Error codes of JSON-RPC replies.
use vstd::prelude::*;

verus! {

/// The line is no JSON.
pub const PARSE_ERROR: i32 = -32700;

/// The JSON is no request.
pub const INVALID_REQUEST: i32 = -32600;

pub const METHOD_NOT_FOUND: i32 = -32601;

pub const INVALID_PARAMS: i32 = -32602;

pub const INTERNAL_ERROR: i32 = -32603;

/// The method needs an authenticated connection.
pub const AUTH_REQUIRED: i32 = -32001;

/// The connection was denied, until it is made anew.
pub const AUTH_DENIED: i32 = -32002;

/// The command could not be made durable, and was not processed.
pub const JOURNAL_UNAVAILABLE: i32 = -32003;

} // verus!
