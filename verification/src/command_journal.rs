//! Commands as the journal records them.
use vstd::prelude::*;

verus! {

/// Where a command came from.
#[derive(Debug, Clone, PartialEq, Eq)]
pub struct Origin {
    pub transport: String,
    pub connection_id: Option<String>,
}

/// Authentication of the connection when a command arrived.
#[derive(Debug, Clone, Copy, PartialEq, Eq, Structural)]
pub enum AuthSnapshot {
    Unauthenticated,
    Authenticated,
    Denied,
}

/// A command as its receipts repeat it; `request_id` and `params` are JSON text.
#[derive(Debug, Clone, PartialEq, Eq)]
pub struct CommandEcho {
    pub request_id: String,
    pub method: String,
    pub params: String,
}

/// Where a command was rejected.
#[derive(Debug, Clone, Copy, PartialEq, Eq, Structural)]
pub enum RejectStage {
    AuthGate,
    Capability,
    Dispatch,
}

} // verus!
