//! Core data structures and rules of an agent runtime.
use vstd::prelude::*;

pub mod agent;
pub mod capability;
pub mod command_journal;
pub mod context;
pub mod context_attribution;
pub mod context_renderer;
pub mod digits;
pub mod double;
pub mod event_log;
pub mod forensics;
pub mod hooks;
pub mod json;
pub mod lsp_client;
pub mod model_catalog;
pub mod paths;
pub mod pricing;
pub mod protocol;
pub mod route_catalog;
pub mod seqs;
pub mod session_cost;
pub mod session_status;
pub mod skill;
pub mod spend;
pub mod string_map;
pub mod t4c_source;
pub mod text;
pub mod tool_registry;
pub mod transport;

verus! {

/// Version of this crate.
pub fn version() -> (r: &'static str)
    ensures
        r@ == "0.1.0"@,
{
    "0.1.0"
}

} // verus!
