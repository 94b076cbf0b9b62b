//! What a session is permitted to do.
use vstd::prelude::*;

use crate::agent::SideEffects;
use crate::context::rope;

verus! {

/// The grant that a session runs under.
#[derive(Debug, Clone, PartialEq, Eq)]
pub struct Capability {
    /// The tools the session may call; `None` permits every tool.
    pub allowed_tools: Option<Vec<String>>,
}

/// Whether and how far a session may run on its own.
#[derive(Debug, Clone, PartialEq, Eq)]
pub enum AutonomyCapability {
    Disallowed,
    Allowed { max_iterations: Option<u32>, max_wall_clock_ms: Option<u64> },
}

/// How a delegate's grant is narrowed.
#[derive(Debug, Clone, PartialEq, Eq)]
pub struct CapabilityAttenuations {
    pub allowed_tools: Option<Vec<String>>,
    pub expires_in_seconds: Option<u64>,
    pub max_tool_calls: Option<u32>,
    pub autonomy: AutonomyCapability,
    pub aws: Option<String>,
    pub max_side_effects: Option<SideEffects>,
}

impl Capability {
    /// Whether the tool `name` is permitted.
    pub open spec fn permits(&self, name: Seq<char>) -> bool {
        match self.allowed_tools {
            Some(names) => names.deep_view().contains(name),
            None => true,
        }
    }

    /// The unrestricted grant.
    pub fn root() -> (r: Self)
        ensures
            r.allowed_tools is None,
    {
        Capability { allowed_tools: None }
    }

    /// Whether the tool `name` is permitted.
    pub fn check_allow(&self, name: &str) -> (r: bool)
        ensures
            r == self.permits(name@),
    {
        match &self.allowed_tools {
            Some(names) => rope::contains_string(names, name),
            None => true,
        }
    }
}

impl Default for Capability {
    fn default() -> (r: Self)
        ensures
            r.allowed_tools is None,
    {
        Capability::root()
    }
}

/// A grant without a list permits every tool, and one with a list just the tools on it.
pub proof fn law_a_list_permits_what_is_on_it(c: &Capability, name: Seq<char>)
    ensures
        c.allowed_tools is None ==> c.permits(name),
        c.allowed_tools matches Some(names) ==> (c.permits(name) <==> exists|i: int|
            0 <= i < names@.len() && (#[trigger] names@[i])@ == name),
{
    if let Some(names) = c.allowed_tools {
        let all = names.deep_view();
        if c.permits(name) {
            let i = choose|i: int| 0 <= i < all.len() && all[i] == name;
            assert(names@[i]@ == name);
        }
        if exists|i: int| 0 <= i < names@.len() && (#[trigger] names@[i])@ == name {
            let i = choose|i: int| 0 <= i < names@.len() && (#[trigger] names@[i])@ == name;
            assert(all[i] == name);
        }
    }
}

} // verus!
