//! The retained rope: an ordered sequence of active spans with an append-only provenance log.
use vstd::prelude::*;

use crate::context::event::{RopeEvent, RopeEventView};
use crate::seqs;
use crate::string_map::StringMap;
use crate::text;

verus! {

/// How firmly a span is retained, most stable first.
#[derive(Debug, Clone, Copy, PartialEq, Eq, PartialOrd, Ord, Hash)]
pub enum RetentionClass {
    /// Always present.
    Startup,
    /// Pinned by operator or policy; resists eviction.
    Pinned,
    /// Recently active; high relevance.
    Hot,
    /// Moderately relevant; eligible for demotion.
    Warm,
    /// Low relevance; eligible for eviction.
    Cold,
    /// Out of the prompt; can be brought back.
    Archived,
    /// Replaced by a newer span; kept for audit only.
    Superseded,
}

impl RetentionClass {
    /// Whether spans of this class are candidates for the cached prompt prefix.
    pub open spec fn stable(self) -> bool {
        self is Startup || self is Pinned || self is Hot
    }

    /// Whether spans of this class are candidates for the cached prompt prefix.
    pub fn is_stable(self) -> (r: bool)
        ensures
            r == self.stable(),
    {
        match self {
            RetentionClass::Startup | RetentionClass::Pinned | RetentionClass::Hot => true,
            _ => false,
        }
    }
}

/// The role a span plays when it is rendered into provider messages.
#[derive(Debug, PartialEq, Eq, Hash)]
pub enum SpanKind {
    /// System prompt or startup instruction.
    System,
    /// User input.
    User,
    /// Assistant output.
    Assistant,
    /// Result of a tool call.
    ToolResult,
    /// Tool invocation by the assistant.
    ToolCall,
    /// Schema of a registered tool.
    ToolSchema,
    /// Payload of an active skill.
    SkillActivation,
    /// Content from memory recall.
    MemoryInjection,
    /// Stands in for evicted spans.
    Compaction,
    /// Content of a loaded file.
    FileLoad,
    /// A summary that absorbed other spans.
    CompactionSummary {
        /// The spans it absorbed.
        absorbed_span_ids: Vec<String>,
        /// When it was made.
        generated_at_unix_ms: u64,
        /// The policy that made it.
        policy_id: String,
    },
}

/// The contents of a [`SpanKind`].
pub enum SpanKindView {
    System,
    User,
    Assistant,
    ToolResult,
    ToolCall,
    ToolSchema,
    SkillActivation,
    MemoryInjection,
    Compaction,
    FileLoad,
    CompactionSummary {
        absorbed_span_ids: Seq<Seq<char>>,
        generated_at_unix_ms: u64,
        policy_id: Seq<char>,
    },
}

impl DeepView for SpanKind {
    type V = SpanKindView;

    open spec fn deep_view(&self) -> SpanKindView {
        match *self {
            SpanKind::System => SpanKindView::System,
            SpanKind::User => SpanKindView::User,
            SpanKind::Assistant => SpanKindView::Assistant,
            SpanKind::ToolResult => SpanKindView::ToolResult,
            SpanKind::ToolCall => SpanKindView::ToolCall,
            SpanKind::ToolSchema => SpanKindView::ToolSchema,
            SpanKind::SkillActivation => SpanKindView::SkillActivation,
            SpanKind::MemoryInjection => SpanKindView::MemoryInjection,
            SpanKind::Compaction => SpanKindView::Compaction,
            SpanKind::FileLoad => SpanKindView::FileLoad,
            SpanKind::CompactionSummary { absorbed_span_ids, generated_at_unix_ms, policy_id } => {
                SpanKindView::CompactionSummary {
                    absorbed_span_ids: absorbed_span_ids.deep_view(),
                    generated_at_unix_ms,
                    policy_id: policy_id@,
                }
            },
        }
    }
}

impl Clone for SpanKind {
    fn clone(&self) -> (r: Self)
        ensures
            r.deep_view() == self.deep_view(),
    {
        match self {
            SpanKind::System => SpanKind::System,
            SpanKind::User => SpanKind::User,
            SpanKind::Assistant => SpanKind::Assistant,
            SpanKind::ToolResult => SpanKind::ToolResult,
            SpanKind::ToolCall => SpanKind::ToolCall,
            SpanKind::ToolSchema => SpanKind::ToolSchema,
            SpanKind::SkillActivation => SpanKind::SkillActivation,
            SpanKind::MemoryInjection => SpanKind::MemoryInjection,
            SpanKind::Compaction => SpanKind::Compaction,
            SpanKind::FileLoad => SpanKind::FileLoad,
            SpanKind::CompactionSummary { absorbed_span_ids, generated_at_unix_ms, policy_id } => {
                let ids = absorbed_span_ids.clone();
                proof {
                    assert(ids.deep_view() =~= absorbed_span_ids.deep_view());
                }
                SpanKind::CompactionSummary {
                    absorbed_span_ids: ids,
                    generated_at_unix_ms: *generated_at_unix_ms,
                    policy_id: policy_id.clone(),
                }
            },
        }
    }
}

/// One retained span.
#[derive(Debug, PartialEq, Eq)]
pub struct Span {
    pub id: String,
    pub kind: SpanKind,
    pub content: String,
    pub retention: RetentionClass,
    pub cacheable: bool,
}

/// The contents of a [`Span`].
pub struct SpanView {
    pub id: Seq<char>,
    pub kind: SpanKindView,
    pub content: Seq<char>,
    pub retention: RetentionClass,
    pub cacheable: bool,
}

impl DeepView for Span {
    type V = SpanView;

    open spec fn deep_view(&self) -> SpanView {
        SpanView {
            id: self.id@,
            kind: self.kind.deep_view(),
            content: self.content@,
            retention: self.retention,
            cacheable: self.cacheable,
        }
    }
}

impl Clone for Span {
    fn clone(&self) -> (r: Self)
        ensures
            r.deep_view() == self.deep_view(),
    {
        Span {
            id: self.id.clone(),
            kind: self.kind.clone(),
            content: self.content.clone(),
            retention: self.retention,
            cacheable: self.cacheable,
        }
    }
}

impl Span {
    /// A span that is cacheable exactly if its retention class is stable.
    pub fn new(id: String, kind: SpanKind, content: String, retention: RetentionClass) -> (r: Self)
        ensures
            r == (Span { id, kind, content, retention, cacheable: retention.stable() }),
    {
        Self::with_cacheable(id, kind, content, retention, retention.is_stable())
    }

    /// A span whose cacheability is set apart from its retention class.
    pub fn with_cacheable(
        id: String,
        kind: SpanKind,
        content: String,
        retention: RetentionClass,
        cacheable: bool,
    ) -> (r: Self)
        ensures
            r == (Span { id, kind, content, retention, cacheable }),
    {
        Span { id, kind, content, retention, cacheable }
    }

    /// Stable identifier within a rope.
    pub fn id(&self) -> (r: &str)
        ensures
            r@ == self.id@,
    {
        &self.id
    }

    /// The role of the span.
    pub fn kind(&self) -> (r: &SpanKind)
        ensures
            *r == self.kind,
    {
        &self.kind
    }

    /// The text of the span.
    pub fn content(&self) -> (r: &str)
        ensures
            r@ == self.content@,
    {
        &self.content
    }

    /// The retention class of the span.
    pub fn retention(&self) -> (r: RetentionClass)
        ensures
            r == self.retention,
    {
        self.retention
    }

    /// Whether the span may be held in a provider's prompt cache.
    pub fn cacheable(&self) -> (r: bool)
        ensures
            r == self.cacheable,
    {
        self.cacheable
    }
}

/// The state of a rope: its active spans, its event log, and for each span identifier ever
/// introduced by an event the place of that event in the log.
pub struct RopeState {
    pub spans: Seq<SpanView>,
    pub events: Seq<RopeEventView>,
    pub origins: Map<Seq<char>, usize>,
}

/// The identifiers of `spans`, in order.
pub open spec fn ids(spans: Seq<SpanView>) -> Seq<Seq<char>> {
    spans.map_values(|s: SpanView| s.id)
}

/// `origins` with `event` as the origin of each span of `spans` that has none yet.
pub open spec fn with_origins(
    origins: Map<Seq<char>, usize>,
    spans: Seq<SpanView>,
    event: usize,
) -> Map<Seq<char>, usize> {
    Map::new(
        |k: Seq<char>| origins.contains_key(k) || ids(spans).contains(k),
        |k: Seq<char>|
            if origins.contains_key(k) {
                origins[k]
            } else {
                event
            },
    )
}

/// The spans of `spans` whose identifier is not in `gone`, in order.
pub open spec fn without(spans: Seq<SpanView>, gone: Seq<Seq<char>>) -> Seq<SpanView> {
    spans.filter(|s: SpanView| !gone.contains(s.id))
}

/// The span lists of the activations of `skill` among `events` that are still in force, oldest
/// first. A deactivation ends the latest of them.
pub open spec fn open_activations(events: Seq<RopeEventView>, skill: Seq<char>) -> Seq<
    Seq<Seq<char>>,
>
    decreases events.len(),
{
    if events.len() == 0 {
        Seq::empty()
    } else {
        let before = open_activations(events.drop_last(), skill);
        match events.last() {
            RopeEventView::SkillActivated { skill_id, span_ids } => if skill_id == skill {
                before.push(span_ids)
            } else {
                before
            },
            RopeEventView::SkillDeactivated { skill_id, .. } => if skill_id == skill
                && before.len() > 0 {
                before.drop_last()
            } else {
                before
            },
            _ => before,
        }
    }
}

impl RopeState {
    /// The rope without spans and events.
    pub open spec fn empty() -> RopeState {
        RopeState { spans: Seq::empty(), events: Seq::empty(), origins: Map::empty() }
    }

    /// Every origin is the place of an event that activated a skill with that span or registered a
    /// tool with it.
    pub open spec fn valid(self) -> bool {
        forall|k: Seq<char>| #[trigger]
            self.origins.contains_key(k) ==> self.origins[k] < self.events.len() && introduces(
                self.events[self.origins[k] as int],
                k,
            )
    }

    /// The event that introduced the span `id`.
    pub open spec fn provenance(self, id: Seq<char>) -> Option<RopeEventView> {
        if self.origins.contains_key(id) && self.origins[id] < self.events.len() {
            Some(self.events[self.origins[id] as int])
        } else {
            None
        }
    }

    /// Whether a span with identifier `id` belongs to the skill `skill`.
    pub open spec fn of_skill(self, id: Seq<char>, skill: Seq<char>) -> bool {
        self.provenance(id) matches Some(e) && e.activates(skill)
    }

    /// Whether a span with identifier `id` is a schema of the tool `tool`.
    pub open spec fn of_tool(self, id: Seq<char>, tool: Seq<char>) -> bool {
        self.provenance(id) matches Some(e) && e.registers(tool)
    }

    /// The span list of the latest activation of `skill` that is still in force; empty if there is
    /// none.
    pub open spec fn retiring(self, skill: Seq<char>) -> Seq<Seq<char>> {
        let open = open_activations(self.events, skill);
        if open.len() > 0 {
            open.last()
        } else {
            Seq::empty()
        }
    }

    /// Whether a span with identifier `id` leaves when `skill` is deactivated: it belongs to the
    /// skill, and the latest activation that is still in force lists it.
    pub open spec fn leaves(self, id: Seq<char>, skill: Seq<char>) -> bool {
        self.of_skill(id, skill) && self.retiring(skill).contains(id)
    }

    /// The identifiers of the active spans that leave when `skill` is deactivated, in order.
    pub open spec fn skill_ids(self, skill: Seq<char>) -> Seq<Seq<char>> {
        ids(self.spans.filter(|s: SpanView| self.leaves(s.id, skill)))
    }

    /// The identifier of the span that was registered last among those of the first `n` active
    /// spans that are schemas of `tool`.
    pub open spec fn latest_schema(self, tool: Seq<char>, n: int) -> Option<Seq<char>>
        decreases n,
    {
        if n <= 0 {
            None
        } else {
            let id = self.spans[n - 1].id;
            match self.latest_schema(tool, n - 1) {
                Some(best) => if self.of_tool(id, tool) && self.origins[id] > self.origins[best] {
                    Some(id)
                } else {
                    Some(best)
                },
                None => if self.of_tool(id, tool) {
                    Some(id)
                } else {
                    None
                },
            }
        }
    }

    /// The identifier of the active schema span of `tool` that was registered last; empty if there
    /// is none.
    pub open spec fn tool_span_id(self, tool: Seq<char>) -> Seq<char> {
        match self.latest_schema(tool, self.spans.len() as int) {
            Some(id) => id,
            None => Seq::empty(),
        }
    }

    /// `spans` are new to `skill` or come from it, and none is active: no active span shares an
    /// identifier with one of them, and one that was introduced before was introduced by an
    /// activation of the skill.
    pub open spec fn admits(self, skill: Seq<char>, spans: Seq<SpanView>) -> bool {
        &&& forall|i: int|
            0 <= i < self.spans.len() ==> !ids(spans).contains((#[trigger] self.spans[i]).id)
        &&& forall|i: int|
            0 <= i < spans.len() && self.origins.contains_key(
                (#[trigger] spans[i]).id,
            ) ==> self.of_skill(spans[i].id, skill)
    }

    /// The state after a span is pushed.
    pub open spec fn pushed(self, span: SpanView) -> RopeState {
        RopeState { spans: self.spans.push(span), ..self }
    }

    /// The state after `skill` is activated with `spans`.
    pub open spec fn activated(self, skill: Seq<char>, spans: Seq<SpanView>) -> RopeState {
        RopeState {
            spans: self.spans + spans,
            events: self.events.push(
                RopeEventView::SkillActivated { skill_id: skill, span_ids: ids(spans) },
            ),
            origins: with_origins(self.origins, spans, self.events.len() as usize),
        }
    }

    /// The state after `skill` is deactivated.
    pub open spec fn deactivated(self, skill: Seq<char>) -> RopeState {
        RopeState {
            spans: without(self.spans, self.skill_ids(skill)),
            events: self.events.push(
                RopeEventView::SkillDeactivated {
                    skill_id: skill,
                    span_ids: self.skill_ids(skill),
                },
            ),
            origins: self.origins,
        }
    }

    /// The state after the schema of `tool` is registered as `span`.
    pub open spec fn registered(self, tool: Seq<char>, span: SpanView) -> RopeState {
        RopeState {
            spans: self.spans.push(span),
            events: self.events.push(
                RopeEventView::ToolSchemaRegistered { tool_name: tool, span_id: span.id },
            ),
            origins: with_origins(self.origins, seq![span], self.events.len() as usize),
        }
    }

    /// The state after `tool` is unregistered.
    pub open spec fn unregistered(self, tool: Seq<char>) -> RopeState {
        let id = self.tool_span_id(tool);
        RopeState {
            spans: if id.len() > 0 {
                without(self.spans, seq![id])
            } else {
                self.spans
            },
            events: self.events.push(
                RopeEventView::ToolSchemaUnregistered { tool_name: tool, span_id: id },
            ),
            origins: self.origins,
        }
    }
}

/// Whether the event `e` brought in a span with identifier `id`.
pub open spec fn introduces(e: RopeEventView, id: Seq<char>) -> bool {
    match e {
        RopeEventView::SkillActivated { span_ids, .. } => span_ids.contains(id),
        RopeEventView::ToolSchemaRegistered { span_id, .. } => span_id == id,
        _ => false,
    }
}

/// An ordered sequence of active spans with an append-only provenance log.
///
/// The log records each activation and deactivation of a skill and each registration and
/// unregistration of a tool schema. A span's origin is the event that first introduced it, and
/// stays known after the span has left.
#[derive(Debug, Clone, PartialEq, Eq)]
pub struct RetainedRope {
    spans: Vec<Span>,
    events: Vec<RopeEvent>,
    origins: StringMap<usize>,
}

impl View for RetainedRope {
    type V = RopeState;

    closed spec fn view(&self) -> RopeState {
        RopeState {
            spans: self.spans.deep_view(),
            events: self.events.deep_view(),
            origins: self.origins@,
        }
    }
}

impl Default for RetainedRope {
    fn default() -> (r: Self)
        ensures
            r@ == RopeState::empty(),
            r@.valid(),
    {
        Self::new()
    }
}

impl RetainedRope {
    /// The empty rope.
    pub fn new() -> (r: Self)
        ensures
            r@ == RopeState::empty(),
            r@.valid(),
    {
        let r = RetainedRope { spans: Vec::new(), events: Vec::new(), origins: StringMap::new() };
        proof {
            assert(r.spans.deep_view() =~= Seq::<SpanView>::empty());
            assert(r.events.deep_view() =~= Seq::<RopeEventView>::empty());
        }
        r
    }

    /// A rope with the given spans in order, and no events.
    pub fn from_spans(spans: Vec<Span>) -> (r: Self)
        ensures
            r@ == (RopeState { spans: spans.deep_view(), ..RopeState::empty() }),
            r@.valid(),
    {
        let r = RetainedRope { spans, events: Vec::new(), origins: StringMap::new() };
        proof {
            assert(r.events.deep_view() =~= Seq::<RopeEventView>::empty());
        }
        r
    }

    /// Appends a span without recording an event.
    pub fn push(&mut self, span: Span) -> (r: &mut Self)
        ensures
            r@ == old(self)@.pushed(span.deep_view()),
            *final(r) == *final(self),
    {
        let ghost before = self@;
        self.spans.push(span);
        proof {
            assert(self@.spans =~= before.spans.push(span.deep_view()));
        }
        self
    }

    /// The number of active spans.
    pub fn len(&self) -> (n: usize)
        ensures
            n == self@.spans.len(),
    {
        self.spans.len()
    }

    /// Whether there are no active spans.
    pub fn is_empty(&self) -> (r: bool)
        ensures
            r == (self@.spans.len() == 0),
    {
        self.spans.len() == 0
    }

    /// The active spans in order.
    pub fn spans(&self) -> (r: &[Span])
        ensures
            r.deep_view() == self@.spans,
            r@ == self.spans_seq(),
    {
        let r = self.spans.as_slice();
        proof {
            assert(r.deep_view() =~= self@.spans);
        }
        r
    }

    /// The active spans in order, to iterate over.
    pub fn iter(&self) -> (r: &[Span])
        ensures
            r.deep_view() == self@.spans,
    {
        self.spans()
    }

    /// The event log.
    pub fn events(&self) -> (r: &[RopeEvent])
        ensures
            r.deep_view() == self@.events,
    {
        let r = self.events.as_slice();
        proof {
            assert(r.deep_view() =~= self@.events);
        }
        r
    }

    /// Appends the spans of a skill and records the activation. The origin of a span that the
    /// rope has seen before stays what it was.
    pub fn activate_skill(&mut self, skill_id: String, span_refs: Vec<Span>) -> (r: &mut Self)
        ensures
            r@ == old(self)@.activated(skill_id@, span_refs.deep_view()),
            old(self)@.valid() ==> r@.valid(),
            *final(r) == *final(self),
    {
        let ghost before = self@;
        let ghost spans = span_refs.deep_view();
        let span_ids = ids_of(&span_refs);
        let event_index: usize = self.events.len();
        self.events.push(RopeEvent::SkillActivated { skill_id, span_ids });
        proof {
            assert(self@.events =~= before.events.push(
                RopeEventView::SkillActivated { skill_id: skill_id@, span_ids: ids(spans) },
            ));
            assert(spans.take(0) =~= Seq::empty());
            assert(self@.origins =~= with_origins(before.origins, spans.take(0), event_index));
            assert(self@.spans =~= before.spans + spans.take(0));
        }
        let ghost events = self@.events;
        for span in it: span_refs
            invariant
                it.seq() == span_refs@,
                spans == span_refs.deep_view(),
                self@.events == events,
                self@.origins == with_origins(
                    before.origins,
                    spans.take(it.index() as int),
                    event_index,
                ),
                self@.spans == before.spans + spans.take(it.index() as int),
        {
            let ghost k = it.index() as int;
            let ghost o = self@.origins;
            let ghost s = self@.spans;
            if !self.origins.contains_key(&span.id) {
                self.origins.insert(span.id.clone(), event_index);
            }
            self.spans.push(span);
            proof {
                assert(spans[k] == span.deep_view());
                assert(spans.take(k + 1) =~= spans.take(k).push(spans[k]));
                assert(ids(spans.take(k + 1)) =~= ids(spans.take(k)).push(span.id@));
                seqs::lemma_push_contains(ids(spans.take(k)), span.id@);
                assert(self@.origins =~= with_origins(
                    before.origins,
                    spans.take(k + 1),
                    event_index,
                ));
                assert(self@.spans =~= s.push(span.deep_view()));
                assert(self@.spans =~= before.spans + spans.take(k + 1));
            }
        }
        proof {
            assert(spans.take(spans.len() as int) =~= spans);
            if before.valid() {
                lemma_activated_valid(before, skill_id@, spans);
            }
        }
        self
    }

    /// Whether the span `span` belongs to the skill `skill_id`.
    fn is_of_skill(&self, span_id: &str, skill_id: &str) -> (r: bool)
        ensures
            r == self@.of_skill(span_id@, skill_id@),
    {
        match self.provenance(span_id) {
            Some(RopeEvent::SkillActivated { skill_id: id, .. }) => text::same(id, skill_id),
            _ => false,
        }
    }

    /// Whether the span `span_id` is a schema of the tool `tool_name`.
    fn is_of_tool(&self, span_id: &str, tool_name: &str) -> (r: bool)
        ensures
            r == self@.of_tool(span_id@, tool_name@),
    {
        match self.provenance(span_id) {
            Some(RopeEvent::ToolSchemaRegistered { tool_name: name, .. }) => text::same(
                name,
                tool_name,
            ),
            _ => false,
        }
    }

    /// Removes the spans whose identifier is in `gone`.
    fn drop_spans(&mut self, gone: &Vec<String>)
        ensures
            final(self)@ == (RopeState {
                spans: without(old(self)@.spans, gone.deep_view()),
                ..old(self)@
            }),
    {
        let mut spans: Vec<Span> = Vec::new();
        std::mem::swap(&mut spans, &mut self.spans);
        let ghost all = spans.deep_view();
        let ghost p = |s: SpanView| !gone.deep_view().contains(s.id);
        let mut kept: Vec<Span> = Vec::new();
        proof {
            seqs::lemma_filter_start(all, p);
            assert(kept.deep_view() =~= Seq::empty());
        }
        for span in it: spans
            invariant
                it.seq() == spans@,
                all == spans.deep_view(),
                p == (|s: SpanView| !gone.deep_view().contains(s.id)),
                kept.deep_view() == all.take(it.index() as int).filter(p),
        {
            let ghost k = it.index() as int;
            proof {
                assert(all[k] == span.deep_view());
                seqs::lemma_filter_step(all, k, p);
            }
            let ghost before = kept.deep_view();
            if !contains_string(gone, &span.id) {
                kept.push(span);
                proof {
                    assert(kept.deep_view() =~= before.push(span.deep_view()));
                }
            }
        }
        self.spans = kept;
    }

    /// The span list of the latest activation of a skill that is still in force.
    fn retiring_ids(&self, skill_id: &str) -> (r: Vec<String>)
        ensures
            r.deep_view() == self@.retiring(skill_id@),
    {
        let ghost all = self@.events;
        let mut open: Vec<&Vec<String>> = Vec::new();
        let mut i: usize = 0;
        proof {
            assert(all.take(0) =~= Seq::empty());
            assert(open.deep_view() =~= Seq::empty());
        }
        while i < self.events.len()
            invariant
                i <= self.events@.len(),
                all == self@.events,
                all == self.events.deep_view(),
                open.deep_view() == open_activations(all.take(i as int), skill_id@),
            decreases self.events@.len() - i,
        {
            let ghost before = open.deep_view();
            proof {
                seqs::lemma_take_step(all, i as int);
                assert(all[i as int] == self.events@[i as int].deep_view());
            }
            match &self.events[i] {
                RopeEvent::SkillActivated { skill_id: id, span_ids } => {
                    if text::same(id, skill_id) {
                        open.push(span_ids);
                        proof {
                            assert(open.deep_view() =~= before.push(span_ids.deep_view()));
                        }
                    }
                },
                RopeEvent::SkillDeactivated { skill_id: id, .. } => {
                    if text::same(id, skill_id) && open.len() > 0 {
                        open.pop();
                        proof {
                            assert(open.deep_view() =~= before.drop_last());
                        }
                    }
                },
                _ => {},
            }
            i += 1;
        }
        proof {
            assert(all.take(all.len() as int) =~= all);
        }
        let n: usize = open.len();
        if n == 0 {
            let none: Vec<String> = Vec::new();
            proof {
                assert(none.deep_view() =~= Seq::empty());
            }
            none
        } else {
            let last: &Vec<String> = open[n - 1];
            let r = last.clone();
            proof {
                assert(open.deep_view().last() == last.deep_view());
                assert(r.deep_view() =~= last.deep_view());
            }
            r
        }
    }

    /// Ends the latest activation of a skill that is still in force: removes the active spans of
    /// the skill that it lists, and records which were removed. Origins stay known.
    ///
    /// A skill without active spans leaves the spans unchanged and records an empty list.
    pub fn deactivate_skill(&mut self, skill_id: &str) -> (r: &mut Self)
        ensures
            r@ == old(self)@.deactivated(skill_id@),
            old(self)@.valid() ==> r@.valid(),
            *final(r) == *final(self),
    {
        let ghost before = self@;
        let ghost p = |s: SpanView| before.leaves(s.id, skill_id@);
        let retiring = self.retiring_ids(skill_id);
        let mut gone: Vec<String> = Vec::new();
        let mut i: usize = 0;
        proof {
            seqs::lemma_filter_start(before.spans, p);
            assert(gone.deep_view() =~= Seq::empty());
            assert(ids(Seq::empty()) =~= Seq::empty());
        }
        while i < self.spans.len()
            invariant
                i <= self.spans@.len(),
                self@ == before,
                self.spans.deep_view() == before.spans,
                p == (|s: SpanView| before.leaves(s.id, skill_id@)),
                retiring.deep_view() == before.retiring(skill_id@),
                gone.deep_view() == ids(before.spans.take(i as int).filter(p)),
            decreases self.spans@.len() - i,
        {
            let ghost sofar = gone.deep_view();
            proof {
                assert(before.spans[i as int] == self.spans@[i as int].deep_view());
                seqs::lemma_filter_step(before.spans, i as int, p);
            }
            if self.is_of_skill(&self.spans[i].id, skill_id) && contains_string(
                &retiring,
                &self.spans[i].id,
            ) {
                gone.push(self.spans[i].id.clone());
                proof {
                    let f = before.spans.take(i as int).filter(p);
                    let x = before.spans[i as int];
                    assert(gone.deep_view() =~= sofar.push(x.id));
                    assert(ids(f.push(x)) =~= ids(f).push(x.id));
                }
            }
            i += 1;
        }
        self.drop_spans(&gone);
        self.events.push(
            RopeEvent::SkillDeactivated { skill_id: skill_id.to_owned(), span_ids: gone },
        );
        proof {
            assert(self@.events =~= before.deactivated(skill_id@).events);
            assert(self@.events.drop_last() =~= before.events);
            if before.valid() {
                lemma_logged_valid(before, self@);
            }
        }
        self
    }

    /// Appends a tool schema span and records the registration. The origin of a span that the
    /// rope has seen before stays what it was.
    pub fn register_tool_schema(&mut self, tool_name: String, schema_span: Span) -> (r: &mut Self)
        ensures
            r@ == old(self)@.registered(tool_name@, schema_span.deep_view()),
            old(self)@.valid() ==> r@.valid(),
            *final(r) == *final(self),
    {
        let ghost before = self@;
        let ghost s = schema_span.deep_view();
        let event_index: usize = self.events.len();
        self.events.push(
            RopeEvent::ToolSchemaRegistered { tool_name, span_id: schema_span.id.clone() },
        );
        if !self.origins.contains_key(&schema_span.id) {
            self.origins.insert(schema_span.id.clone(), event_index);
        }
        self.spans.push(schema_span);
        proof {
            let after = before.registered(tool_name@, s);
            assert(ids(seq![s])[0] == s.id);
            assert(ids(seq![s]) =~= seq![s.id]);
            assert(self@.events =~= after.events);
            assert(self@.spans =~= after.spans);
            assert(self@.origins =~= after.origins);
            if before.valid() {
                lemma_registered_valid(before, tool_name@, s);
            }
        }
        self
    }

    /// The place in the log of the event that introduced a span, if that registered the tool
    /// `tool_name`.
    fn place_of_schema(&self, span_id: &str, tool_name: &str) -> (r: Option<usize>)
        ensures
            r == (if self@.of_tool(span_id@, tool_name@) {
                Some(self@.origins[span_id@])
            } else {
                None
            }),
    {
        if self.is_of_tool(span_id, tool_name) {
            match self.origins.get(span_id) {
                Some(place) => Some(*place),
                None => None,
            }
        } else {
            None
        }
    }

    /// Removes the schema span of a tool and records it: of several that are active the one that
    /// was registered last. A tool without a schema span leaves the spans unchanged and records an
    /// empty identifier.
    pub fn unregister_tool_schema(&mut self, tool_name: &str) -> (r: &mut Self)
        ensures
            r@ == old(self)@.unregistered(tool_name@),
            old(self)@.valid() ==> r@.valid(),
            *final(r) == *final(self),
    {
        let ghost before = self@;
        let mut span_id: String = String::new();
        let mut latest: Option<usize> = None;
        let mut i: usize = 0;
        while i < self.spans.len()
            invariant
                i <= self.spans@.len(),
                self@ == before,
                self.spans.deep_view() == before.spans,
                match before.latest_schema(tool_name@, i as int) {
                    Some(id) => span_id@ == id && latest == Some(before.origins[id]),
                    None => span_id@.len() == 0 && latest is None,
                },
            decreases self.spans@.len() - i,
        {
            proof {
                assert(before.spans[i as int] == self.spans@[i as int].deep_view());
            }
            if let Some(place) = self.place_of_schema(&self.spans[i].id, tool_name) {
                let later = match latest {
                    Some(best) => place > best,
                    None => true,
                };
                if later {
                    span_id = self.spans[i].id.clone();
                    latest = Some(place);
                }
            }
            i += 1;
        }
        proof {
            assert(before.tool_span_id(tool_name@) =~= span_id@);
        }
        if span_id.unicode_len() > 0 {
            let mut gone: Vec<String> = Vec::new();
            gone.push(span_id.clone());
            proof {
                assert(gone.deep_view() =~= seq![span_id@]);
            }
            self.drop_spans(&gone);
        }
        self.events.push(
            RopeEvent::ToolSchemaUnregistered { tool_name: tool_name.to_owned(), span_id },
        );
        proof {
            assert(self@.events =~= before.unregistered(tool_name@).events);
            assert(self@.events.drop_last() =~= before.events);
            if before.valid() {
                lemma_logged_valid(before, self@);
            }
        }
        self
    }

    /// The active tool schema spans that `predicate` accepts, in order.
    pub fn filter_tools<F>(&self, predicate: F) -> (r: Vec<&Span>) where F: Fn(&Span) -> bool
        requires
            forall|i: int|
                0 <= i < self.spans_seq().len() && self.spans_seq()[i].kind is ToolSchema
                    ==> call_requires(predicate, (&#[trigger] self.spans_seq()[i],)),
        ensures
            exists|accepted: Seq<bool>|
                accepted.len() == self@.spans.len() && chosen(
                    predicate,
                    self.spans_seq(),
                    accepted,
                ) && r@.unref() == #[trigger] pick(self.spans_seq(), accepted),
    {
        let mut r: Vec<&Span> = Vec::new();
        let mut i: usize = 0;
        let ghost mut accepted: Seq<bool> = Seq::empty();
        proof {
            assert(r@.unref() =~= Seq::empty());
        }
        while i < self.spans.len()
            invariant
                i <= self.spans@.len(),
                forall|k: int|
                    0 <= k < self.spans_seq().len() && self.spans_seq()[k].kind is ToolSchema
                        ==> call_requires(predicate, (&#[trigger] self.spans_seq()[k],)),
                accepted.len() == i,
                forall|j: int|
                    0 <= j < i && !(self.spans@[j].kind is ToolSchema) ==> !#[trigger] accepted[j],
                forall|j: int|
                    0 <= j < i && self.spans@[j].kind is ToolSchema ==> call_ensures(
                        predicate,
                        (&self.spans@[j],),
                        #[trigger] accepted[j],
                    ),
                r@.unref() == pick(self.spans@.take(i as int), accepted),
            decreases self.spans@.len() - i,
        {
            let span = &self.spans[i];
            proof {
                assert(self.spans_seq()[i as int] == span);
            }
            let b = matches!(span.kind, SpanKind::ToolSchema) && predicate(span);
            proof {
                let t = self.spans@.take(i + 1);
                assert(t.drop_last() =~= self.spans@.take(i as int));
                assert(accepted.push(b).drop_last() =~= accepted);
                accepted = accepted.push(b);
            }
            if b {
                let ghost sofar = r@.unref();
                r.push(span);
                proof {
                    assert(r@.unref() =~= sofar.push(*span));
                }
            }
            i += 1;
        }
        proof {
            assert(self.spans@.take(self.spans@.len() as int) =~= self.spans@);
            assert(chosen(predicate, self.spans_seq(), accepted));
        }
        r
    }

    /// The active spans as values.
    pub closed spec fn spans_seq(&self) -> Seq<Span> {
        self.spans@
    }

    /// The spans as values are as many as in the state.
    pub proof fn lemma_spans_len(&self)
        ensures
            self.spans_seq().len() == self@.spans.len(),
            forall|i: int|
                0 <= i < self.spans_seq().len() ==> (#[trigger] self.spans_seq()[i]).deep_view()
                    == self@.spans[i],
    {
    }

    /// The event that introduced the span `span_id`, also after the span has left.
    pub fn provenance(&self, span_id: &str) -> (r: Option<&RopeEvent>)
        ensures
            match r {
                Some(e) => self@.provenance(span_id@) == Some(e.deep_view()),
                None => self@.provenance(span_id@) is None,
            },
    {
        match self.origins.get(span_id) {
            Some(i) => {
                if *i < self.events.len() {
                    Some(&self.events[*i])
                } else {
                    None
                }
            },
            None => None,
        }
    }
}

/// The elements of `s` at the places where `accepted` holds, in order.
pub open spec fn pick(s: Seq<Span>, accepted: Seq<bool>) -> Seq<Span>
    decreases s.len(),
{
    if s.len() == 0 || accepted.len() == 0 {
        Seq::empty()
    } else if accepted.last() {
        pick(s.drop_last(), accepted.drop_last()).push(s.last())
    } else {
        pick(s.drop_last(), accepted.drop_last())
    }
}

/// Whether `accepted` says of each span of `s` that it is a tool schema and that `predicate`
/// returned true for it.
pub open spec fn chosen<F: Fn(&Span) -> bool>(
    predicate: F,
    s: Seq<Span>,
    accepted: Seq<bool>,
) -> bool {
    &&& forall|j: int|
        0 <= j < s.len() && !(s[j].kind is ToolSchema) ==> !#[trigger] accepted[j]
    &&& forall|j: int|
        0 <= j < s.len() && s[j].kind is ToolSchema ==> call_ensures(
            predicate,
            (&s[j],),
            #[trigger] accepted[j],
        )
}

/// The identifiers of `spans`, in order.
fn ids_of(spans: &Vec<Span>) -> (r: Vec<String>)
    ensures
        r.deep_view() == ids(spans.deep_view()),
{
    let mut r: Vec<String> = Vec::new();
    let mut i: usize = 0;
    while i < spans.len()
        invariant
            i <= spans@.len(),
            r@.len() == i,
            forall|j: int| 0 <= j < i ==> r@[j]@ == spans@[j].id@,
        decreases spans@.len() - i,
    {
        r.push(spans[i].id.clone());
        i += 1;
    }
    proof {
        assert(r.deep_view() =~= ids(spans.deep_view()));
    }
    r
}

/// Whether `v` holds the string `s`.
pub fn contains_string(v: &Vec<String>, s: &str) -> (r: bool)
    ensures
        r == v.deep_view().contains(s@),
{
    let mut i: usize = 0;
    while i < v.len()
        invariant
            i <= v@.len(),
            forall|j: int| 0 <= j < i ==> v@[j]@ != s@,
        decreases v@.len() - i,
    {
        if text::same(&v[i], s) {
            proof {
                assert(v.deep_view()[i as int] == s@);
            }
            return true;
        }
        i += 1;
    }
    proof {
        assert forall|j: int| 0 <= j < v.deep_view().len() implies v.deep_view()[j] != s@ by {
            assert(v.deep_view()[j] == v@[j]@);
        }
    }
    false
}

proof fn lemma_activated_valid(r: RopeState, skill: Seq<char>, spans: Seq<SpanView>)
    requires
        r.valid(),
        r.events.len() <= usize::MAX,
    ensures
        r.activated(skill, spans).valid(),
{
    let a = r.activated(skill, spans);
    assert forall|k: Seq<char>| #[trigger] a.origins.contains_key(k) implies a.origins[k]
        < a.events.len() && introduces(a.events[a.origins[k] as int], k) by {
        if r.origins.contains_key(k) {
            assert(a.events[a.origins[k] as int] == r.events[r.origins[k] as int]);
        } else {
            assert(a.events[a.origins[k] as int] == a.events.last());
        }
    }
}

proof fn lemma_registered_valid(r: RopeState, tool: Seq<char>, span: SpanView)
    requires
        r.valid(),
        r.events.len() <= usize::MAX,
    ensures
        r.registered(tool, span).valid(),
{
    let a = r.registered(tool, span);
    assert(ids(seq![span]) =~= seq![span.id]);
    assert forall|k: Seq<char>| #[trigger] a.origins.contains_key(k) implies a.origins[k]
        < a.events.len() && introduces(a.events[a.origins[k] as int], k) by {
        if r.origins.contains_key(k) {
            assert(a.events[a.origins[k] as int] == r.events[r.origins[k] as int]);
        } else {
            assert(a.events[a.origins[k] as int] == a.events.last());
        }
    }
}

proof fn lemma_logged_valid(r: RopeState, a: RopeState)
    requires
        r.valid(),
        a.origins == r.origins,
        a.events.len() == r.events.len() + 1,
        a.events.drop_last() == r.events,
    ensures
        a.valid(),
{
    assert forall|k: Seq<char>| #[trigger] a.origins.contains_key(k) implies a.origins[k]
        < a.events.len() && introduces(a.events[a.origins[k] as int], k) by {
        assert(a.events[a.origins[k] as int] == a.events.drop_last()[a.origins[k] as int]);
    }
}

/// `new` is a state that one operation can lead to from `old`.
pub open spec fn step(old: RopeState, new: RopeState) -> bool {
    ||| exists|span: SpanView| new == #[trigger] old.pushed(span)
    ||| exists|skill: Seq<char>, spans: Seq<SpanView>| new == #[trigger] old.activated(skill, spans)
    ||| exists|skill: Seq<char>| new == #[trigger] old.deactivated(skill)
    ||| exists|tool: Seq<char>, span: SpanView| new == #[trigger] old.registered(tool, span)
    ||| exists|tool: Seq<char>| new == #[trigger] old.unregistered(tool)
}

/// The event log is append-only: no operation changes or removes what is in it.
pub proof fn law_log_is_append_only(old: RopeState, new: RopeState)
    requires
        step(old, new),
    ensures
        old.events.len() <= new.events.len() <= old.events.len() + 1,
        new.events.take(old.events.len() as int) == old.events,
{
    assert(new.events.take(old.events.len() as int) =~= old.events);
}

/// The provenance of a span, once known, is the same after every operation, also after the span
/// has left.
pub proof fn law_provenance_is_permanent(old: RopeState, new: RopeState, id: Seq<char>)
    requires
        old.valid(),
        step(old, new),
        old.provenance(id) is Some,
    ensures
        new.provenance(id) == old.provenance(id),
{
    law_log_is_append_only(old, new);
    let i = old.origins[id] as int;
    assert(new.events.take(old.events.len() as int)[i] == new.events[i]);
}

/// Every operation keeps the rope valid: each origin is an event that introduced the span.
pub proof fn law_steps_keep_validity(old: RopeState, new: RopeState)
    requires
        old.valid(),
        old.events.len() <= usize::MAX,
        step(old, new),
    ensures
        new.valid(),
{
    if exists|span: SpanView| new == #[trigger] old.pushed(span) {
    } else if exists|skill: Seq<char>, spans: Seq<SpanView>|
        new == #[trigger] old.activated(skill, spans) {
        let (skill, spans) = choose|skill: Seq<char>, spans: Seq<SpanView>|
            new == #[trigger] old.activated(skill, spans);
        lemma_activated_valid(old, skill, spans);
    } else if exists|tool: Seq<char>, span: SpanView| new == #[trigger] old.registered(tool, span) {
        let (tool, span) = choose|tool: Seq<char>, span: SpanView|
            new == #[trigger] old.registered(tool, span);
        lemma_registered_valid(old, tool, span);
    } else {
        assert(new.events.drop_last() =~= old.events);
        lemma_logged_valid(old, new);
    }
}

/// The first activation that brings a span in is its provenance, and that stays so when the
/// skill, or any other, is deactivated.
pub proof fn law_provenance_survives_deactivation(
    r: RopeState,
    skill: Seq<char>,
    spans: Seq<SpanView>,
    retired: Seq<char>,
    id: Seq<char>,
)
    requires
        r.events.len() < usize::MAX,
        !r.origins.contains_key(id),
        ids(spans).contains(id),
    ensures
        r.activated(skill, spans).provenance(id) == Some(
            RopeEventView::SkillActivated { skill_id: skill, span_ids: ids(spans) },
        ),
        r.activated(skill, spans).deactivated(retired).provenance(id) == r.activated(
            skill,
            spans,
        ).provenance(id),
{
    let a = r.activated(skill, spans);
    assert(a.origins.contains_key(id));
    assert(a.events[a.origins[id] as int] == a.events.last());
    assert(a.deactivated(retired).events[a.origins[id] as int] == a.events.last());
}

/// Deactivating a skill removes exactly the spans of the skill that its latest activation in force
/// lists; the others stay, in order.
pub proof fn law_deactivation_removes_only_its_spans(r: RopeState, skill: Seq<char>)
    ensures
        r.deactivated(skill).spans == r.spans.filter(|s: SpanView| !r.leaves(s.id, skill)),
{
    let mine = |s: SpanView| r.leaves(s.id, skill);
    let others = |s: SpanView| !r.leaves(s.id, skill);
    let gone = r.skill_ids(skill);
    let kept = |s: SpanView| !gone.contains(s.id);
    assert forall|i: int| 0 <= i < r.spans.len() implies kept(#[trigger] r.spans[i]) == others(
        r.spans[i],
    ) by {
        let s = r.spans[i];
        let f = r.spans.filter(mine);
        if mine(s) {
            r.spans.lemma_filter_contains(mine, i);
            let j = choose|j: int| 0 <= j < f.len() && f[j] == s;
            assert(gone[j] == s.id);
        }
        if gone.contains(s.id) {
            let j = choose|j: int| 0 <= j < gone.len() && gone[j] == s.id;
            r.spans.lemma_filter_pred(mine, j);
        }
    }
    seqs::lemma_filter_agrees(r.spans, kept, others);
}

/// Each deactivation of a skill ends one activation, the latest that is still in force, and leaves
/// the activations of other skills alone.
pub proof fn law_deactivation_ends_one_activation(
    r: RopeState,
    skill: Seq<char>,
    other: Seq<char>,
)
    ensures
        ({
            let open = open_activations(r.events, skill);
            open_activations(r.deactivated(skill).events, skill) == (if open.len() > 0 {
                open.drop_last()
            } else {
                open
            })
        }),
        other != skill ==> open_activations(r.deactivated(skill).events, other)
            == open_activations(r.events, other),
{
    assert(r.deactivated(skill).events.drop_last() =~= r.events);
}

/// With at most one activation in force, deactivating a skill again changes no span and records an
/// empty list.
pub proof fn law_deactivation_is_idempotent(r: RopeState, skill: Seq<char>)
    requires
        open_activations(r.events, skill).len() <= 1,
    ensures
        r.deactivated(skill).skill_ids(skill) == Seq::<Seq<char>>::empty(),
        r.deactivated(skill).deactivated(skill).spans == r.deactivated(skill).spans,
{
    let d = r.deactivated(skill);
    law_deactivation_ends_one_activation(r, skill, skill);
    assert(d.retiring(skill) =~= Seq::empty());
    lemma_nothing_leaves(d, skill);
}

proof fn lemma_nothing_leaves(r: RopeState, skill: Seq<char>)
    requires
        forall|i: int| 0 <= i < r.spans.len() ==> !r.leaves((#[trigger] r.spans[i]).id, skill),
    ensures
        r.skill_ids(skill) == Seq::<Seq<char>>::empty(),
        r.deactivated(skill).spans == r.spans,
{
    let mine = |s: SpanView| r.leaves(s.id, skill);
    seqs::lemma_filter_none(r.spans, mine);
    assert(ids(Seq::empty()) =~= Seq::empty());
    assert(r.skill_ids(skill) =~= Seq::empty());
    let kept = |s: SpanView| !r.skill_ids(skill).contains(s.id);
    seqs::lemma_filter_all(r.spans, kept);
}

/// Deactivating a skill without active spans changes no span and records an empty list.
pub proof fn law_unknown_skill_is_benign(r: RopeState, skill: Seq<char>)
    requires
        forall|i: int| 0 <= i < r.spans.len() ==> !r.of_skill((#[trigger] r.spans[i]).id, skill),
    ensures
        r.skill_ids(skill) == Seq::<Seq<char>>::empty(),
        r.deactivated(skill).spans == r.spans,
        r.deactivated(skill).events.last() == (RopeEventView::SkillDeactivated {
            skill_id: skill,
            span_ids: Seq::empty(),
        }),
{
    lemma_nothing_leaves(r, skill);
}

/// Deactivating a skill undoes its activation, also a repeated one, if none of its spans is active
/// yet and none was introduced by something else.
pub proof fn law_deactivation_undoes_activation(
    r: RopeState,
    skill: Seq<char>,
    spans: Seq<SpanView>,
)
    requires
        r.events.len() < usize::MAX,
        r.admits(skill, spans),
    ensures
        r.activated(skill, spans).deactivated(skill).spans == r.spans,
        open_activations(r.activated(skill, spans).deactivated(skill).events, skill)
            == open_activations(r.events, skill),
{
    let a = r.activated(skill, spans);
    assert(a.events.drop_last() =~= r.events);
    assert(open_activations(a.events, skill) == open_activations(r.events, skill).push(
        ids(spans),
    ));
    assert(a.retiring(skill) == ids(spans));
    law_deactivation_ends_one_activation(a, skill, skill);
    assert(open_activations(r.events, skill).push(ids(spans)).drop_last() =~= open_activations(
        r.events,
        skill,
    ));
    law_deactivation_removes_only_its_spans(a, skill);
    let others = |s: SpanView| !a.leaves(s.id, skill);
    Seq::filter_distributes_over_add(r.spans, spans, others);
    seqs::lemma_filter_all(r.spans, others);
    assert forall|i: int| 0 <= i < spans.len() implies !others(#[trigger] spans[i]) by {
        assert(ids(spans)[i] == spans[i].id);
        lemma_belongs(r, skill, spans, i);
    }
    seqs::lemma_filter_none(spans, others);
    assert(r.spans + Seq::<SpanView>::empty() =~= r.spans);
}

proof fn lemma_belongs(r: RopeState, skill: Seq<char>, spans: Seq<SpanView>, i: int)
    requires
        r.events.len() < usize::MAX,
        0 <= i < spans.len(),
        r.origins.contains_key(spans[i].id) ==> r.of_skill(spans[i].id, skill),
    ensures
        r.activated(skill, spans).of_skill(spans[i].id, skill),
        r.activated(skill, spans).deactivated(skill).of_skill(spans[i].id, skill),
{
    let a = r.activated(skill, spans);
    let d = a.deactivated(skill);
    let k = spans[i].id;
    assert(ids(spans)[i] == k);
    assert(a.origins.contains_key(k));
    if r.origins.contains_key(k) {
        assert(a.events[a.origins[k] as int] == r.events[r.origins[k] as int]);
    } else {
        assert(a.events[a.origins[k] as int] == a.events.last());
    }
    assert(d.origins == a.origins);
    assert(d.events[a.origins[k] as int] == a.events[a.origins[k] as int]);
}

/// A rope that is ready for the spans of a skill is so again once the skill was activated and
/// deactivated.
pub proof fn lemma_still_admits(r: RopeState, skill: Seq<char>, spans: Seq<SpanView>)
    requires
        r.events.len() < usize::MAX,
        r.admits(skill, spans),
    ensures
        r.activated(skill, spans).deactivated(skill).admits(skill, spans),
{
    let d = r.activated(skill, spans).deactivated(skill);
    assert(d.spans == r.spans) by {
        law_deactivation_undoes_activation(r, skill, spans);
    }
    assert forall|i: int| 0 <= i < spans.len() && d.origins.contains_key(
        (#[trigger] spans[i]).id,
    ) implies d.of_skill(spans[i].id, skill) by {
        lemma_belongs(r, skill, spans, i);
    }
}

proof fn lemma_latest_schema(r: RopeState, tool: Seq<char>, n: int)
    requires
        0 <= n <= r.spans.len(),
    ensures
        match r.latest_schema(tool, n) {
            Some(id) => r.of_tool(id, tool) && ids(r.spans.take(n)).contains(id) && forall|i: int|
                0 <= i < n && r.of_tool((#[trigger] r.spans[i]).id, tool)
                    ==> r.origins[r.spans[i].id] <= r.origins[id],
            None => forall|i: int| 0 <= i < n ==> !r.of_tool((#[trigger] r.spans[i]).id, tool),
        },
    decreases n,
{
    if n > 0 {
        lemma_latest_schema(r, tool, n - 1);
        let s = ids(r.spans.take(n));
        assert(s[n - 1] == r.spans[n - 1].id);
        if let Some(best) = r.latest_schema(tool, n - 1) {
            let t = ids(r.spans.take(n - 1));
            let j = choose|j: int| 0 <= j < t.len() && t[j] == best;
            assert(s[j] == best);
        }
    }
}

/// Unregistering a tool takes the active schema span of the tool that was registered last: every
/// other one was introduced by an earlier or the same event.
pub proof fn law_latest_schema_leaves(r: RopeState, tool: Seq<char>)
    ensures
        r.tool_span_id(tool).len() > 0 ==> {
            &&& ids(r.spans).contains(r.tool_span_id(tool))
            &&& r.of_tool(r.tool_span_id(tool), tool)
            &&& forall|i: int|
                0 <= i < r.spans.len() && r.of_tool((#[trigger] r.spans[i]).id, tool)
                    ==> r.origins[r.spans[i].id] <= r.origins[r.tool_span_id(tool)]
            &&& r.unregistered(tool).spans == r.spans.filter(
                |s: SpanView| s.id != r.tool_span_id(tool),
            )
        },
        (forall|i: int| 0 <= i < r.spans.len() ==> !r.of_tool((#[trigger] r.spans[i]).id, tool))
            ==> r.tool_span_id(tool).len() == 0 && r.unregistered(tool).spans == r.spans,
{
    lemma_latest_schema(r, tool, r.spans.len() as int);
    assert(r.spans.take(r.spans.len() as int) =~= r.spans);
    let id = r.tool_span_id(tool);
    if id.len() > 0 {
        let gone = seq![id];
        assert(gone[0] == id);
        let kept = |s: SpanView| !gone.contains(s.id);
        let others = |s: SpanView| s.id != id;
        seqs::lemma_filter_agrees(r.spans, kept, others);
    }
}

proof fn lemma_last_is_latest(r: RopeState, tool: Seq<char>)
    requires
        r.spans.len() > 0,
        r.of_tool(r.spans.last().id, tool),
        forall|i: int|
            0 <= i < r.spans.len() - 1 && r.of_tool((#[trigger] r.spans[i]).id, tool)
                ==> r.origins[r.spans[i].id] < r.origins[r.spans.last().id],
    ensures
        r.tool_span_id(tool) == r.spans.last().id,
{
    let n = r.spans.len() as int;
    lemma_latest_schema(r, tool, n - 1);
    if let Some(best) = r.latest_schema(tool, n - 1) {
        let t = ids(r.spans.take(n - 1));
        let j = choose|j: int| 0 <= j < t.len() && t[j] == best;
        assert(r.spans[j].id == best);
    }
}

proof fn lemma_registration_is_latest(r: RopeState, tool: Seq<char>, span: SpanView)
    requires
        r.valid(),
        r.events.len() < usize::MAX,
        !r.origins.contains_key(span.id),
    ensures
        forall|k: Seq<char>|
            #![trigger r.registered(tool, span).origins.contains_key(k)]
            r.registered(tool, span).origins.contains_key(k) && k != span.id
                ==> r.registered(tool, span).origins[k] < r.events.len(),
        r.registered(tool, span).origins[span.id] == r.events.len(),
        r.registered(tool, span).of_tool(span.id, tool),
{
    let a = r.registered(tool, span);
    assert(ids(seq![span]) =~= seq![span.id]);
    assert(ids(seq![span])[0] == span.id);
    assert forall|k: Seq<char>|
        #![trigger a.origins.contains_key(k)]
        a.origins.contains_key(k) && k != span.id implies a.origins[k] < r.events.len() by {
        assert(r.origins.contains_key(k));
    }
}

proof fn lemma_registration_is_taken(r: RopeState, tool: Seq<char>, span: SpanView)
    requires
        r.valid(),
        r.events.len() < usize::MAX,
        !r.origins.contains_key(span.id),
        forall|i: int| 0 <= i < r.spans.len() ==> (#[trigger] r.spans[i]).id != span.id,
    ensures
        r.registered(tool, span).tool_span_id(tool) == span.id,
{
    let a = r.registered(tool, span);
    lemma_registration_is_latest(r, tool, span);
    assert forall|i: int| 0 <= i < a.spans.len() - 1 && a.of_tool(
        (#[trigger] a.spans[i]).id,
        tool,
    ) implies a.origins[a.spans[i].id] < a.origins[a.spans.last().id] by {
        assert(a.spans[i] == r.spans[i]);
        assert(a.origins.contains_key(a.spans[i].id));
    }
    lemma_last_is_latest(a, tool);
}

proof fn lemma_without_new(spans: Seq<SpanView>, span: SpanView)
    requires
        forall|i: int| 0 <= i < spans.len() ==> (#[trigger] spans[i]).id != span.id,
    ensures
        without(spans.push(span), seq![span.id]) == spans,
{
    let gone = seq![span.id];
    let kept = |s: SpanView| !gone.contains(s.id);
    assert(gone[0] == span.id);
    assert(spans.push(span) =~= spans + seq![span]);
    Seq::filter_distributes_over_add(spans, seq![span], kept);
    seqs::lemma_filter_all(spans, kept);
    seqs::lemma_filter_none(seq![span], kept);
    assert(spans + Seq::<SpanView>::empty() =~= spans);
}

/// Unregistering a tool undoes its registration, if the schema span has a nonempty identifier that
/// is new to the rope.
pub proof fn law_unregistration_undoes_registration(r: RopeState, tool: Seq<char>, span: SpanView)
    requires
        r.valid(),
        r.events.len() < usize::MAX,
        span.id.len() > 0,
        !r.origins.contains_key(span.id),
        forall|i: int| 0 <= i < r.spans.len() ==> (#[trigger] r.spans[i]).id != span.id,
    ensures
        r.registered(tool, span).unregistered(tool).spans == r.spans,
        r.registered(tool, span).unregistered(tool).events.last() == (
        RopeEventView::ToolSchemaUnregistered { tool_name: tool, span_id: span.id }),
{
    lemma_registration_is_taken(r, tool, span);
    lemma_without_new(r.spans, span);
}

/// For a predicate that decides `p`, the filtered view is the subsequence of the tool schema spans
/// that satisfy `p`; what it leaves out of them are exactly those the predicate rejected.
pub proof fn law_filter_tools_is_a_set_difference<F: Fn(&Span) -> bool>(
    predicate: F,
    p: spec_fn(Span) -> bool,
    s: Seq<Span>,
    accepted: Seq<bool>,
)
    requires
        accepted.len() == s.len(),
        chosen(predicate, s, accepted),
        forall|x: Span, b: bool| call_ensures(predicate, (&x,), b) ==> b == p(x),
    ensures
        pick(s, accepted) == s.filter(|x: Span| x.kind is ToolSchema && p(x)),
    decreases s.len(),
{
    let q = |x: Span| x.kind is ToolSchema && p(x);
    reveal(Seq::filter);
    if s.len() > 0 {
        let s0 = s.drop_last();
        let a0 = accepted.drop_last();
        assert forall|j: int| 0 <= j < s0.len() && !(s0[j].kind is ToolSchema) implies
            !#[trigger] a0[j] by {
            assert(accepted[j] == a0[j]);
        }
        assert forall|j: int| 0 <= j < s0.len() && s0[j].kind is ToolSchema implies call_ensures(
            predicate,
            (&s0[j],),
            #[trigger] a0[j],
        ) by {
            assert(accepted[j] == a0[j]);
            assert(s[j] == s0[j]);
        }
        law_filter_tools_is_a_set_difference(predicate, p, s0, a0);
        let j = s.len() - 1;
        assert(accepted[j] == q(s[j]));
    }
}

/// Startup, pinned and hot spans may be cached, and no others.
pub proof fn law_spans_that_may_be_cached(c: RetentionClass)
    ensures
        c is Startup || c is Pinned || c is Hot ==> c.stable(),
        c is Warm || c is Cold || c is Archived || c is Superseded ==> !c.stable(),
{
}

/// Pushing a span adds it behind the others and records nothing; activating a skill adds its spans
/// behind the others, in order, and records the skill with their identifiers; registering a tool
/// adds its span and records the tool with its identifier.
pub proof fn law_what_comes_in_is_recorded(
    r: RopeState,
    skill: Seq<char>,
    spans: Seq<SpanView>,
    tool: Seq<char>,
    span: SpanView,
)
    ensures
        ({
            let p = r.pushed(span);
            let a = r.activated(skill, spans);
            let t = r.registered(tool, span);
            let n = r.events.len() as int;
            &&& p.spans == r.spans.push(span)
            &&& p.events == r.events
            &&& p.origins == r.origins
            &&& a.spans == r.spans + spans
            &&& a.events.len() == n + 1
            &&& a.events[n] is SkillActivated
            &&& a.events[n]->SkillActivated_skill_id == skill
            &&& a.events[n]->SkillActivated_span_ids.len() == spans.len()
            &&& forall|i: int|
                0 <= i < spans.len() ==> #[trigger] a.events[n]->SkillActivated_span_ids[i]
                    == spans[i].id
            &&& t.spans == r.spans.push(span)
            &&& t.events.len() == n + 1
            &&& t.events[n] is ToolSchemaRegistered
            &&& t.events[n]->ToolSchemaRegistered_tool_name == tool
            &&& t.events[n]->ToolSchemaRegistered_span_id == span.id
        }),
{
}

/// Deactivating a skill records the skill with the identifiers of the spans that leave, one for
/// each; unregistering a tool records the tool with the identifier of its span that leaves.
pub proof fn law_what_leaves_is_recorded(r: RopeState, skill: Seq<char>, tool: Seq<char>)
    ensures
        ({
            let d = r.deactivated(skill);
            let u = r.unregistered(tool);
            let n = r.events.len() as int;
            &&& d.events.len() == n + 1
            &&& d.events[n] is SkillDeactivated
            &&& d.events[n]->SkillDeactivated_skill_id == skill
            &&& d.spans.len() + d.events[n]->SkillDeactivated_span_ids.len() == r.spans.len()
            &&& d.origins == r.origins
            &&& u.events.len() == n + 1
            &&& u.events[n] is ToolSchemaUnregistered
            &&& u.events[n]->ToolSchemaUnregistered_tool_name == tool
            &&& u.events[n]->ToolSchemaUnregistered_span_id == r.tool_span_id(tool)
            &&& u.origins == r.origins
        }),
{
    law_deactivation_removes_only_its_spans(r, skill);
    let mine = |s: SpanView| r.leaves(s.id, skill);
    let others = |s: SpanView| !r.leaves(s.id, skill);
    lemma_filters_add_up(r.spans, mine, others);
}

proof fn lemma_filters_add_up(
    s: Seq<SpanView>,
    p: spec_fn(SpanView) -> bool,
    q: spec_fn(SpanView) -> bool,
)
    requires
        forall|x: SpanView| #[trigger] p(x) == !q(x),
    ensures
        s.filter(p).len() + s.filter(q).len() == s.len(),
    decreases s.len(),
{
    reveal(Seq::filter);
    if s.len() > 0 {
        lemma_filters_add_up(s.drop_last(), p, q);
        assert(p(s.last()) == !q(s.last()));
    }
}

/// A span belongs to a skill exactly if an activation of that skill introduced it, and to a tool
/// exactly if a registration of that tool did.
pub proof fn law_spans_belong_to_what_introduced_them(
    r: RopeState,
    id: Seq<char>,
    skill: Seq<char>,
    tool: Seq<char>,
)
    ensures
        r.of_skill(id, skill) <==> r.provenance(id) is Some && r.provenance(id)->0 is SkillActivated
            && r.provenance(id)->0->SkillActivated_skill_id == skill,
        r.of_tool(id, tool) <==> r.provenance(id) is Some && r.provenance(
            id,
        )->0 is ToolSchemaRegistered && r.provenance(id)->0->ToolSchemaRegistered_tool_name == tool,
        r.valid() && r.origins.contains_key(id) ==> r.provenance(id) == Some(
            r.events[r.origins[id] as int],
        ),
        !r.origins.contains_key(id) ==> r.provenance(id) is None,
{
}

/// Activating a skill is one more activation of that skill in force, with the spans it brought, and
/// neither another skill nor a tool changes that.
pub proof fn law_activations_are_in_force(
    r: RopeState,
    skill: Seq<char>,
    other: Seq<char>,
    spans: Seq<SpanView>,
    span: SpanView,
)
    ensures
        open_activations(r.activated(skill, spans).events, skill) == open_activations(
            r.events,
            skill,
        ).push(ids(spans)),
        other != skill ==> open_activations(r.activated(other, spans).events, skill)
            == open_activations(r.events, skill),
        open_activations(r.registered(other, span).events, skill) == open_activations(
            r.events,
            skill,
        ),
        open_activations(r.unregistered(other).events, skill) == open_activations(r.events, skill),
        open_activations(Seq::empty(), skill).len() == 0,
        r.activated(skill, spans).retiring(skill) == ids(spans),
{
    assert(r.activated(skill, spans).events.drop_last() =~= r.events);
    assert(r.activated(other, spans).events.drop_last() =~= r.events);
    assert(r.registered(other, span).events.drop_last() =~= r.events);
    assert(r.unregistered(other).events.drop_last() =~= r.events);
}

} // verus!
