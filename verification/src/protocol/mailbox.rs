//! Wire types of peer discovery and mailboxes.
use vstd::prelude::*;

verus! {

/// Identity advertised by the requesting session in `PeerHelloRequest`.
#[derive(Debug, Clone, PartialEq)]
pub struct PeerIdentity {
    pub daemon_id: String,
    pub session_id: String,
    pub advertised_capabilities: Vec<String>,
}

/// What the caller is asking permission to do.
#[derive(Debug, Clone, PartialEq)]
pub struct PeerWant {
    pub method: String,
    pub scope: Option<String>,
}

/// `peer.hello` request: A asks B for a peer handle.
#[derive(Debug, Clone, PartialEq)]
pub struct PeerHelloRequest {
    /// The target session A wants to talk to.
    pub to_session_id: String,
    pub from: PeerIdentity,
    pub want: PeerWant,
}

impl PeerHelloRequest {
    pub const METHOD: &'static str = "peer.hello";
}

#[derive(Debug, Clone, PartialEq)]
pub enum PeerHelloResponse {
    Accepted {
        /// Opaque token A uses on subsequent `mailbox.*` calls against B.
        peer_handle: String,
        /// Allowed RPC method names: never wider than `want.method`.
        allowed_methods: Vec<String>,
        /// Wall-clock expiration of the handle.
        expires_at_unix_ms: Option<u64>,
    },
    Denied {
        /// Human-readable reason; informational.
        reason: String,
    },
}

/// `mailbox.post` request.
#[derive(Debug, Clone, PartialEq)]
pub struct MailboxPostRequest {
    pub to_session_id: String,
    /// Peer handle A obtained from `peer.hello` against `to_session_id`.
    pub peer_handle: String,
    pub from: PeerOriginIdentity,
    pub kind: String,
    pub subject: String,
    pub body: String,
    pub expires_at_unix_ms: Option<u64>,
}

impl MailboxPostRequest {
    pub const METHOD: &'static str = "mailbox.post";
}

/// Compact origin identity carried inside `MailboxPostRequest` and the `MailboxMessageEvent` wire
/// notification.
#[derive(Debug, Clone, PartialEq)]
pub struct PeerOriginIdentity {
    pub daemon_id: String,
    pub session_id: String,
}

#[derive(Debug, Clone, PartialEq)]
pub struct MailboxPostResponse {
    pub posted: bool,
    /// Per-target-session monotonic sequence number assigned at dispatch time.
    pub seq: u64,
}

/// `mailbox.list` request: read the target session's mailbox.
#[derive(Debug, Clone, PartialEq)]
pub struct MailboxListRequest {
    pub session_id: String,
    pub peer_handle: Option<String>,
    /// Lower-bound filter: only messages with `seq >= since_seq` are returned.
    pub since_seq: Option<u64>,
    /// If false (default), `mailbox.consume`d entries are filtered out.
    pub include_consumed: bool,
}

impl MailboxListRequest {
    pub const METHOD: &'static str = "mailbox.list";
}

#[derive(Debug, Clone, PartialEq)]
pub struct MailboxListResponse {
    pub messages: Vec<MailboxMessageView>,
}

/// One mailbox message as seen by readers.
#[derive(Debug, Clone, PartialEq)]
pub struct MailboxMessageView {
    pub seq: u64,
    pub from_daemon_id: String,
    pub from_session_id: String,
    pub kind: String,
    pub subject: String,
    pub body: String,
    pub posted_at_unix_ms: u64,
    pub consumed: bool,
    pub expires_at_unix_ms: Option<u64>,
}

/// `mailbox.read` request: fetch the full body of a single message by seq.
#[derive(Debug, Clone, PartialEq)]
pub struct MailboxReadRequest {
    pub session_id: String,
    pub peer_handle: Option<String>,
    pub seq: u64,
}

impl MailboxReadRequest {
    pub const METHOD: &'static str = "mailbox.read";
}

#[derive(Debug, Clone, PartialEq)]
pub struct MailboxReadResponse {
    pub message: Option<MailboxMessageView>,
}

/// `mailbox.consume` request: mark a list of `seq`s as consumed.
#[derive(Debug, Clone, PartialEq)]
pub struct MailboxConsumeRequest {
    pub session_id: String,
    pub peer_handle: Option<String>,
    pub seqs: Vec<u64>,
}

impl MailboxConsumeRequest {
    pub const METHOD: &'static str = "mailbox.consume";
}

#[derive(Debug, Clone, PartialEq)]
pub struct MailboxConsumeResponse {
    /// Number of seqs that transitioned from un-consumed to consumed.
    pub consumed_count: u32,
}

/// `session.mailbox_message` wire notification: emitted by the forwarder when a
/// `MailboxMessagePosted` event lands in the recipient's event log.
#[derive(Debug, Clone, PartialEq)]
pub struct MailboxMessageEvent {
    /// Recipient session: the one whose mailbox just gained the message.
    pub session_id: String,
    pub seq: u64,
    pub from_daemon_id: String,
    pub from_session_id: String,
    pub kind: String,
    pub subject: String,
    pub body: String,
    pub posted_at_unix_ms: u64,
    pub expires_at_unix_ms: Option<u64>,
}

impl MailboxMessageEvent {
    pub const METHOD: &'static str = "session.mailbox_message";
}

} // verus!
