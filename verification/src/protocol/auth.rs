//! Wire types of the connect-time authentication handshake.
use vstd::prelude::*;

use crate::capability::Capability;
use crate::text;

verus! {

/// Authentication mechanism for the connect-time handshake.
#[derive(Debug, Clone, PartialEq, Eq, Hash)]
pub enum AuthMechanism {
    /// RFC 7628 BEARER: the token is the SASL "initial response".
    Bearer,
    /// Any mechanism whose wire name was not recognized at deserialize time.
    Other(String),
}

impl AuthMechanism {
    /// The wire name of the mechanism.
    pub open spec fn wire(&self) -> Seq<char> {
        match *self {
            AuthMechanism::Bearer => "bearer"@,
            AuthMechanism::Other(name) => name@,
        }
    }

    /// The wire name of the mechanism.
    pub fn as_wire_str(&self) -> (r: &str)
        ensures
            r@ == self.wire(),
    {
        match self {
            AuthMechanism::Bearer => "bearer",
            AuthMechanism::Other(name) => name.as_str(),
        }
    }

    /// The mechanism with the given wire name; an unknown name is kept verbatim.
    pub fn from_wire(name: String) -> (r: Self)
        ensures
            r is Bearer <==> name@ == "bearer"@,
            !(r is Bearer) ==> r == AuthMechanism::Other(name),
            r.wire() == name@,
    {
        if text::same(&name, "bearer") {
            AuthMechanism::Bearer
        } else {
            AuthMechanism::Other(name)
        }
    }
}

/// Reasons authentication may be rejected.
#[derive(Debug, Clone, Copy, PartialEq, Eq, Hash)]
pub enum AuthDenialCode {
    UnsupportedMechanism,
    InvalidCredentials,
    /// The submitted message was syntactically valid but semantically wrong for the chosen
    /// mechanism (e.g. BEARER `initial_response` missing or empty).
    MalformedExchange,
}

/// `peer.auth_offer` request: caller asks the server which mechanisms it supports for connect-time
/// auth.
#[derive(Debug, Clone, Default, PartialEq, Eq)]
pub struct AuthOfferRequest {}

impl AuthOfferRequest {
    pub const METHOD: &'static str = "peer.auth_offer";
}

/// `peer.auth_offer` response: server's advertised mechanism list in server-preferred order.
#[derive(Debug, Clone, PartialEq, Eq)]
pub struct AuthOfferResponse {
    pub mechanisms: Vec<AuthMechanism>,
}

/// `peer.auth_initiate` request: caller picks a mechanism and submits the SASL "initial response."
/// For BEARER, `initial_response` is the token.
#[derive(Debug, Clone, PartialEq, Eq)]
pub struct AuthInitiateRequest {
    pub mechanism: AuthMechanism,
    pub initial_response: Option<String>,
}

impl AuthInitiateRequest {
    pub const METHOD: &'static str = "peer.auth_initiate";
}

/// `peer.auth_response` request: caller's reply to a server-issued challenge from a multi-step
/// mechanism.
#[derive(Debug, Clone, PartialEq, Eq)]
pub struct AuthResponseRequest {
    /// Echoes the `AuthExchangeResponse::Continue::server_state_id` the caller received.
    pub server_state_id: String,
    pub response: String,
}

impl AuthResponseRequest {
    pub const METHOD: &'static str = "peer.auth_response";
}

/// Unified outcome of `AuthInitiateRequest` and `AuthResponseRequest`.
#[derive(Debug, Clone, PartialEq, Eq)]
pub enum AuthExchangeResponse {
    /// Authentication succeeded; the server has bound the granted capability to the connection.
    Accepted {
        /// Capability granted to the connection.
        granted_capability: Capability,
    },
    /// Authentication failed.
    Denied {
        code: AuthDenialCode,
        reason: String,
    },
    /// Multi-step mechanism: server has emitted a challenge; caller continues with
    /// `AuthResponseRequest`.
    Continue {
        /// Opaque server-chosen handle the caller echoes back in the next `AuthResponseRequest`.
        server_state_id: String,
        challenge: String,
    },
}

} // verus!
