//! Wire types of capability discovery.
use vstd::prelude::*;

use crate::t4c_source::CapabilityView;

verus! {

/// `capabilities/discover` request: rank the calling session's manifest against `intent`,
/// best-first.
#[derive(Debug, Clone, PartialEq)]
pub struct CapabilitiesDiscoverRequest {
    /// The session whose attenuated manifest to query: discovery tracks the session's permission
    /// (only tools its capability allows are projected).
    pub session_id: String,
    /// Free-text intent, e.g. "search file contents" or "track an issue".
    pub intent: String,
    /// Top-k cap on results.
    pub limit: Option<u32>,
}

impl CapabilitiesDiscoverRequest {
    pub const METHOD: &'static str = "capabilities/discover";
}

/// `capabilities/discover` response: the ranked capability rows.
#[derive(Debug, Clone)]
pub struct CapabilitiesDiscoverResponse {
    pub results: Vec<CapabilityView>,
}

} // verus!
