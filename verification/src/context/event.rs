//! Events of the retained rope.
use vstd::prelude::*;

verus! {

/// How long a provider keeps a cached prompt prefix.
#[derive(Debug, Clone, Copy, PartialEq, Eq, Structural)]
pub enum CacheTtl {
    FiveMinutes,
    OneHour,
}

/// A change of the retained span set.
#[derive(Debug, Clone, PartialEq, Eq)]
pub enum RopeEvent {
    /// A skill became active and brought in the spans `span_ids`.
    SkillActivated { skill_id: String, span_ids: Vec<String> },
    /// A skill was retired together with the spans `span_ids`.
    SkillDeactivated { skill_id: String, span_ids: Vec<String> },
    /// A tool's schema entered as the span `span_id`.
    ToolSchemaRegistered { tool_name: String, span_id: String },
    /// A tool's schema left; `span_id` is empty if no span held it.
    ToolSchemaUnregistered { tool_name: String, span_id: String },
}

/// The contents of a [`RopeEvent`].
pub enum RopeEventView {
    SkillActivated { skill_id: Seq<char>, span_ids: Seq<Seq<char>> },
    SkillDeactivated { skill_id: Seq<char>, span_ids: Seq<Seq<char>> },
    ToolSchemaRegistered { tool_name: Seq<char>, span_id: Seq<char> },
    ToolSchemaUnregistered { tool_name: Seq<char>, span_id: Seq<char> },
}

impl DeepView for RopeEvent {
    type V = RopeEventView;

    open spec fn deep_view(&self) -> RopeEventView {
        match *self {
            RopeEvent::SkillActivated { skill_id, span_ids } => RopeEventView::SkillActivated {
                skill_id: skill_id@,
                span_ids: span_ids.deep_view(),
            },
            RopeEvent::SkillDeactivated { skill_id, span_ids } => RopeEventView::SkillDeactivated {
                skill_id: skill_id@,
                span_ids: span_ids.deep_view(),
            },
            RopeEvent::ToolSchemaRegistered { tool_name, span_id } => {
                RopeEventView::ToolSchemaRegistered { tool_name: tool_name@, span_id: span_id@ }
            },
            RopeEvent::ToolSchemaUnregistered { tool_name, span_id } => {
                RopeEventView::ToolSchemaUnregistered { tool_name: tool_name@, span_id: span_id@ }
            },
        }
    }
}

impl RopeEventView {
    /// Whether this is an activation of the skill `id`.
    pub open spec fn activates(self, id: Seq<char>) -> bool {
        self matches RopeEventView::SkillActivated { skill_id, .. } && skill_id == id
    }

    /// Whether this is a registration of the tool `name`.
    pub open spec fn registers(self, name: Seq<char>) -> bool {
        self matches RopeEventView::ToolSchemaRegistered { tool_name, .. } && tool_name == name
    }
}

} // verus!
