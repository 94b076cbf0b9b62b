//! Attribution of a session's context and cost to model calls and tools.
use vstd::prelude::*;

use crate::agent;
use crate::agent::Usage;
use crate::event_log;
use crate::event_log::{EventPayload, SessionEvent};
use crate::seqs;
use crate::string_map;
use crate::string_map::StringMap;
use crate::text;

verus! {

/// What a session's events say about its context.
#[derive(Debug, Clone, PartialEq)]
pub struct ContextAttribution {
    /// The context window, where it is known.
    pub window_max: Option<u64>,
    pub total_input_tokens: u64,
    pub total_output_tokens: u64,
    pub cache_read_tokens: u64,
    pub cache_creation_tokens: u64,
    pub model_calls: Vec<ModelCallAttribution>,
    pub tool_attribution: Vec<ToolAttribution>,
    pub user_message_count: u32,
    pub assistant_message_count: u32,
    pub tool_result_count: u32,
    pub provider_model: Option<(String, String)>,
}

/// A model call: how its context was assembled, and the usage it reported.
#[derive(Debug, Clone, PartialEq)]
pub struct ModelCallAttribution {
    pub model_call_id: u32,
    pub message_count: u32,
    pub user_message_count: u32,
    pub assistant_message_count: u32,
    pub tool_result_count: u32,
    pub tool_count: u32,
    pub token_count_estimate: Option<u64>,
    pub provider_kind: String,
    pub model: String,
    pub renderer: Option<String>,
    pub cache_strategy: Option<String>,
    pub span_count: Option<u32>,
    pub cache_boundary_count: Option<u32>,
    pub usage: Option<Usage>,
}

/// What a tool contributed.
#[derive(Debug, Clone, PartialEq, Eq)]
pub struct ToolAttribution {
    pub tool_name: String,
    pub call_count: u32,
    pub total_result_bytes: u64,
    pub error_count: u32,
}

/// Input tokens of a completed ask.
pub open spec fn input_of(p: EventPayload) -> nat {
    match event_log::done_usage(p) {
        Some(u) => u.input_tokens as nat,
        None => 0,
    }
}

/// Output tokens of a completed ask.
pub open spec fn output_of(p: EventPayload) -> nat {
    match event_log::done_usage(p) {
        Some(u) => u.output_tokens as nat,
        None => 0,
    }
}

/// Cache reads of a completed ask.
pub open spec fn reads_of(p: EventPayload) -> nat {
    match event_log::done_usage(p) {
        Some(u) => agent::tokens(u.cache_read_input_tokens),
        None => 0,
    }
}

/// Cache writes of a completed ask.
pub open spec fn writes_of(p: EventPayload) -> nat {
    match event_log::done_usage(p) {
        Some(u) => agent::tokens(u.cache_creation_input_tokens),
        None => 0,
    }
}

/// The call that the context assembly `p` announces, with the usage `usage`.
pub open spec fn announced(p: EventPayload, usage: Option<Usage>, c: ModelCallAttribution) -> bool {
    match p {
        EventPayload::ContextAssembly {
            model_call_id,
            message_count,
            user_message_count,
            assistant_message_count,
            tool_result_count,
            tool_count,
            token_count_estimate,
            provider_kind,
            model,
            renderer,
            cache_strategy,
            span_count,
            cache_boundary_count,
            ..
        } => c == (ModelCallAttribution {
            model_call_id,
            message_count,
            user_message_count,
            assistant_message_count,
            tool_result_count,
            tool_count,
            token_count_estimate,
            provider_kind,
            model,
            renderer,
            cache_strategy,
            span_count,
            cache_boundary_count,
            usage,
        }),
        _ => false,
    }
}

/// The identifier of the model call whose context `p` assembles.
pub open spec fn call_id(p: EventPayload) -> Option<u32> {
    match p {
        EventPayload::ContextAssembly { model_call_id, .. } => Some(model_call_id),
        _ => None,
    }
}

/// The identifiers of the assembled model calls, in the order in which they first occur.
pub open spec fn call_order(events: Seq<SessionEvent>) -> Seq<u32>
    decreases events.len(),
{
    if events.len() == 0 {
        Seq::empty()
    } else {
        let before = call_order(events.drop_last());
        match call_id(events.last().payload) {
            Some(id) => if before.contains(id) {
                before
            } else {
                before.push(id)
            },
            None => before,
        }
    }
}

/// The place of the last context assembly of the model call `id`.
pub open spec fn last_assembly(events: Seq<SessionEvent>, id: u32) -> Option<int>
    decreases events.len(),
{
    if events.len() == 0 {
        None
    } else if call_id(events.last().payload) == Some(id) {
        Some(events.len() - 1)
    } else {
        last_assembly(events.drop_last(), id)
    }
}

/// The place of the context assembly that waits for its usage: the last one, if no ask that
/// reports usage was completed after it.
pub open spec fn waiting(events: Seq<SessionEvent>) -> Option<int>
    decreases events.len(),
{
    if events.len() == 0 {
        None
    } else if call_id(events.last().payload) is Some {
        Some(events.len() - 1)
    } else if event_log::done_usage(events.last().payload) is Some {
        None
    } else {
        waiting(events.drop_last())
    }
}

/// The usage of the ask that ended the wait of the context assembly at `a`.
pub open spec fn usage_for(events: Seq<SessionEvent>, a: int) -> Option<Usage>
    decreases events.len(),
{
    if events.len() == 0 {
        None
    } else if waiting(events.drop_last()) == Some(a) && event_log::done_usage(events.last().payload)
        is Some {
        event_log::done_usage(events.last().payload)
    } else {
        usage_for(events.drop_last(), a)
    }
}

/// Whether `calls` holds the model calls of `events`: one for each identifier, in the order of
/// first occurrence, each as its last context assembly announces it, with the usage of the ask
/// that ended the wait of that assembly.
pub open spec fn are_calls_of(
    calls: Seq<ModelCallAttribution>,
    events: Seq<SessionEvent>,
) -> bool {
    &&& calls.len() == call_order(events).len()
    &&& forall|i: int|
        0 <= i < calls.len() ==> is_call_of(#[trigger] calls[i], events, call_order(events)[i])
}

/// Whether `c` is the model call `id` of `events`.
pub open spec fn is_call_of(c: ModelCallAttribution, events: Seq<SessionEvent>, id: u32) -> bool {
    match last_assembly(events, id) {
        Some(a) => announced(events[a].payload, usage_for(events, a), c),
        None => false,
    }
}

/// The name of the tool whose call `call_id` has no result yet.
pub open spec fn pending_tool(events: Seq<SessionEvent>, call: Seq<char>) -> Option<Seq<char>>
    decreases events.len(),
{
    if events.len() == 0 {
        None
    } else {
        match events.last().payload {
            EventPayload::ToolCall { call_id, name, .. } if call_id@ == call => Some(name@),
            EventPayload::ToolResult { call_id, .. } if call_id@ == call => None,
            _ => pending_tool(events.drop_last(), call),
        }
    }
}

/// The tool to which a result for `call` is attributed after `events`.
pub open spec fn tool_of_result(events: Seq<SessionEvent>, call: Seq<char>) -> Seq<char> {
    match pending_tool(events, call) {
        Some(name) => name,
        None => "unknown"@,
    }
}

/// What the tool `name` did: number of calls, bytes of results, number of errors.
pub struct ToolTotals {
    pub calls: nat,
    pub bytes: nat,
    pub errors: nat,
}

/// Whether `events` attribute a call or a result to the tool `name`.
pub open spec fn mentions(events: Seq<SessionEvent>, name: Seq<char>) -> bool
    decreases events.len(),
{
    if events.len() == 0 {
        false
    } else {
        mentions(events.drop_last(), name) || match events.last().payload {
            EventPayload::ToolCall { name: called, .. } => called@ == name,
            EventPayload::ToolResult { call_id, .. } => tool_of_result(
                events.drop_last(),
                call_id@,
            ) == name,
            _ => false,
        }
    }
}

/// What `events` attribute to the tool `name`.
pub open spec fn tool_totals(events: Seq<SessionEvent>, name: Seq<char>) -> ToolTotals
    decreases events.len(),
{
    if events.len() == 0 {
        ToolTotals { calls: 0, bytes: 0, errors: 0 }
    } else {
        let before = tool_totals(events.drop_last(), name);
        match events.last().payload {
            EventPayload::ToolCall { name: called, .. } if called@ == name => ToolTotals {
                calls: before.calls + 1,
                ..before
            },
            EventPayload::ToolResult { call_id, content, is_error } if tool_of_result(
                events.drop_last(),
                call_id@,
            ) == name => ToolTotals {
                bytes: before.bytes + text::byte_len_view(content@),
                errors: before.errors + if is_error {
                    1nat
                } else {
                    0nat
                },
                ..before
            },
            _ => before,
        }
    }
}

/// Whether `t` says what `events` attribute to the tool `name`.
pub open spec fn is_tool_of(
    t: ToolAttribution,
    events: Seq<SessionEvent>,
    name: Seq<char>,
) -> bool {
    let totals = tool_totals(events, name);
    &&& t.tool_name@ == name
    &&& t.call_count == agent::clamp32(totals.calls)
    &&& t.total_result_bytes == agent::clamp64(totals.bytes)
    &&& t.error_count == agent::clamp32(totals.errors)
}

/// Whether `tools` holds the tools of `events`: one for each tool that is mentioned, those with
/// more calls first, and among equals in the order of their names.
pub open spec fn are_tools_of(tools: Seq<ToolAttribution>, events: Seq<SessionEvent>) -> bool {
    &&& forall|i: int|
        0 <= i < tools.len() ==> mentions(events, (#[trigger] tools[i]).tool_name@) && is_tool_of(
            tools[i],
            events,
            tools[i].tool_name@,
        )
    &&& forall|name: Seq<char>| #[trigger]
        mentions(events, name) ==> exists|i: int|
            0 <= i < tools.len() && (#[trigger] tools[i]).tool_name@ == name
    &&& forall|i: int, j: int| 0 <= i < j < tools.len() ==> before(tools[i], tools[j])
}

/// The order in which tools are listed.
pub open spec fn before(a: ToolAttribution, b: ToolAttribution) -> bool {
    a.call_count > b.call_count || a.call_count == b.call_count && text::str_lt(
        a.tool_name@,
        b.tool_name@,
    )
}

/// The state of the attribution while the events are read.
struct Tally {
    input: u64,
    output: u64,
    reads: u64,
    writes: u64,
    users: u32,
    assistants: u32,
    results: u32,
    provider_model: Option<(String, String)>,
}

spec fn counted(events: Seq<SessionEvent>, t: Tally) -> bool {
    &&& t.input == agent::clamp64(event_log::total(events, |p: EventPayload| input_of(p)))
    &&& t.output == agent::clamp64(event_log::total(events, |p: EventPayload| output_of(p)))
    &&& t.reads == agent::clamp64(event_log::total(events, |p: EventPayload| reads_of(p)))
    &&& t.writes == agent::clamp64(event_log::total(events, |p: EventPayload| writes_of(p)))
    &&& t.users == agent::clamp32(event_log::count(events, |p: EventPayload| p is UserMessage))
    &&& t.assistants == agent::clamp32(
        event_log::count(events, |p: EventPayload| p is AssistantMessageEvent),
    )
    &&& t.results == agent::clamp32(event_log::count(events, |p: EventPayload| p is ToolResult))
    &&& match t.provider_model {
        Some((provider, model)) => event_log::first_provider(events) == Some((provider@, model@)),
        None => event_log::first_provider(events) is None,
    }
}

/// Adds one event to the sums and counts.
fn tally(t: Tally, event: &SessionEvent, Ghost(seen): Ghost<Seq<SessionEvent>>) -> (r: Tally)
    requires
        counted(seen, t),
    ensures
        counted(seen.push(*event), r),
{
    let mut t = t;
    proof {
        assert(seen.push(*event).drop_last() =~= seen);
    }
    match &event.payload {
        EventPayload::SessionCreated { provider_kind, model, .. } => {
            if t.provider_model.is_none() {
                t.provider_model = Some((provider_kind.clone(), model.clone()));
            }
        },
        EventPayload::UserMessage { .. } => {
            t.users = t.users.saturating_add(1);
        },
        EventPayload::AssistantMessageEvent { .. } => {
            t.assistants = t.assistants.saturating_add(1);
        },
        EventPayload::Done { usage: Some(u), .. } => {
            t.input = t.input.saturating_add(u.input_tokens);
            t.output = t.output.saturating_add(u.output_tokens);
            t.reads = t.reads.saturating_add(u.cache_read_input_tokens.unwrap_or(0));
            t.writes = t.writes.saturating_add(u.cache_creation_input_tokens.unwrap_or(0));
        },
        EventPayload::ToolResult { .. } => {
            t.results = t.results.saturating_add(1);
        },
        _ => {},
    }
    t
}

proof fn lemma_last_assembly(events: Seq<SessionEvent>, id: u32)
    ensures
        match last_assembly(events, id) {
            Some(a) => 0 <= a < events.len() && call_id(events[a].payload) == Some(id),
            None => true,
        },
        last_assembly(events, id) is Some <==> call_order(events).contains(id),
        call_order(events).no_duplicates(),
    decreases events.len(),
{
    if events.len() > 0 {
        lemma_last_assembly(events.drop_last(), id);
        match call_id(events.last().payload) {
            Some(x) => {
                let o = call_order(events.drop_last());
                seqs::lemma_push_contains(o, x);
            },
            None => {},
        }
    }
}

proof fn lemma_waiting(events: Seq<SessionEvent>)
    ensures
        match waiting(events) {
            Some(a) => 0 <= a < events.len() && call_id(events[a].payload) is Some && last_assembly(
                events,
                call_id(events[a].payload)->0,
            ) == Some(a),
            None => true,
        },
    decreases events.len(),
{
    if events.len() > 0 {
        lemma_waiting(events.drop_last());
    }
}

proof fn lemma_no_usage_yet(events: Seq<SessionEvent>, a: int)
    requires
        events.len() <= a,
    ensures
        usage_for(events, a) is None,
    decreases events.len(),
{
    if events.len() > 0 {
        lemma_waiting(events.drop_last());
        lemma_no_usage_yet(events.drop_last(), a);
    }
}

spec fn calls_tracked(
    events: Seq<SessionEvent>,
    calls: Seq<ModelCallAttribution>,
    current: Option<usize>,
) -> bool {
    &&& are_calls_of(calls, events)
    &&& match current {
        Some(i) => i < calls.len() && waiting(events) is Some && waiting(events) == last_assembly(
            events,
            call_order(events)[i as int],
        ),
        None => waiting(events) is None,
    }
}

/// Adds one event to the model calls.
fn note_call(
    calls: &mut Vec<ModelCallAttribution>,
    current: Option<usize>,
    event: &SessionEvent,
    Ghost(seen): Ghost<Seq<SessionEvent>>,
) -> (r: Option<usize>)
    requires
        calls_tracked(seen, old(calls)@, current),
    ensures
        calls_tracked(seen.push(*event), final(calls)@, r),
{
    let ghost now = seen.push(*event);
    let ghost order = call_order(seen);
    let ghost was = calls@;
    proof {
        assert(now.drop_last() =~= seen);
        assert forall|i: int| 0 <= i < order.len() implies {
            let a = last_assembly(seen, #[trigger] order[i]);
            a is Some && 0 <= a->0 < seen.len() && now[a->0] == seen[a->0] && call_id(
                seen[a->0].payload,
            ) == Some(order[i])
        } by {
            lemma_last_assembly(seen, order[i]);
            assert(order.contains(order[i]));
        }
        lemma_waiting(seen);
        lemma_last_assembly(seen, 0);
    }
    match &event.payload {
        EventPayload::ContextAssembly {
            model_call_id,
            message_count,
            user_message_count,
            assistant_message_count,
            tool_result_count,
            tool_count,
            token_count_estimate,
            provider_kind,
            model,
            renderer,
            cache_strategy,
            span_count,
            cache_boundary_count,
            ..
        } => {
            let call = ModelCallAttribution {
                model_call_id: *model_call_id,
                message_count: *message_count,
                user_message_count: *user_message_count,
                assistant_message_count: *assistant_message_count,
                tool_result_count: *tool_result_count,
                tool_count: *tool_count,
                token_count_estimate: *token_count_estimate,
                provider_kind: provider_kind.clone(),
                model: model.clone(),
                renderer: renderer.clone(),
                cache_strategy: cache_strategy.clone(),
                span_count: *span_count,
                cache_boundary_count: *cache_boundary_count,
                usage: None,
            };
            let mut at: usize = 0;
            while at < calls.len() && calls[at].model_call_id != *model_call_id
                invariant
                    at <= calls@.len(),
                    calls@ == was,
                    was.len() == order.len(),
                    forall|i: int| 0 <= i < was.len() ==> (#[trigger] was[i]).model_call_id
                        == order[i],
                    forall|i: int| 0 <= i < at ==> order[i] != *model_call_id,
                decreases calls@.len() - at,
            {
                assert(was[at as int].model_call_id == order[at as int]);
                at += 1;
            }
            proof {
                lemma_no_usage_yet(seen, seen.len() as int);
                assert(announced(event.payload, None, call));
            }
            if at < calls.len() {
                let _ = calls.remove(at);
                calls.insert(at, call);
                proof {
                    assert(was[at as int].model_call_id == order[at as int]);
                    assert(order.contains(*model_call_id));
                    assert(call_order(now) == order);
                    assert(calls@ =~= was.update(at as int, call));
                }
            } else {
                calls.push(call);
                proof {
                    assert(!order.contains(*model_call_id));
                    assert(call_order(now) == order.push(*model_call_id));
                }
            }
            proof {
                assert forall|i: int| 0 <= i < calls@.len() implies is_call_of(
                    #[trigger] calls@[i],
                    now,
                    call_order(now)[i],
                ) by {
                    if i == at {
                        assert(last_assembly(now, *model_call_id) == Some(seen.len() as int));
                        assert(now[seen.len() as int] == *event);
                    } else {
                        assert(calls@[i] == was[i]);
                        assert(is_call_of(was[i], seen, order[i]));
                        assert(order[i] != *model_call_id);
                        assert(last_assembly(now, order[i]) == last_assembly(seen, order[i]));
                    }
                }
            }
            Some(at)
        },
        EventPayload::Done { usage: Some(u), .. } => {
            match current {
                Some(i) => {
                    let call = calls.remove(i);
                    let filled = ModelCallAttribution { usage: Some(*u), ..call };
                    calls.insert(i, filled);
                    proof {
                        assert(calls@ =~= was.update(i as int, filled));
                        assert(is_call_of(was[i as int], seen, order[i as int]));
                    }
                },
                None => {},
            }
            proof {
                assert(call_order(now) == order);
                assert forall|j: int| 0 <= j < calls@.len() implies is_call_of(
                    #[trigger] calls@[j],
                    now,
                    call_order(now)[j],
                ) by {
                    assert(is_call_of(was[j], seen, order[j]));
                    assert(last_assembly(now, order[j]) == last_assembly(seen, order[j]));
                    if current is Some && j != current->0 {
                        assert(calls@[j] == was[j]);
                        assert(order[j] != order[current->0 as int]);
                    }
                }
            }
            None
        },
        _ => {
            proof {
                assert(call_id(event.payload) is None);
                assert(event_log::done_usage(event.payload) is None);
                assert(call_order(now) == order);
                assert forall|j: int| 0 <= j < calls@.len() implies is_call_of(
                    #[trigger] calls@[j],
                    now,
                    call_order(now)[j],
                ) by {
                    assert(is_call_of(was[j], seen, order[j]));
                    assert(last_assembly(now, order[j]) == last_assembly(seen, order[j]));
                }
            }
            current
        },
    }
}

proof fn lemma_unmentioned(events: Seq<SessionEvent>, name: Seq<char>)
    requires
        !mentions(events, name),
    ensures
        tool_totals(events, name) == (ToolTotals { calls: 0, bytes: 0, errors: 0 }),
    decreases events.len(),
{
    if events.len() > 0 {
        lemma_unmentioned(events.drop_last(), name);
    }
}

spec fn pending_tracked(events: Seq<SessionEvent>, pending: Map<Seq<char>, String>) -> bool {
    forall|c: Seq<char>| #[trigger]
        pending.contains_key(c) == (pending_tool(events, c) is Some) && (pending.contains_key(c)
            ==> Some(pending[c]@) == pending_tool(events, c))
}

spec fn tools_tracked(events: Seq<SessionEvent>, stats: Map<Seq<char>, ToolAttribution>) -> bool {
    forall|n: Seq<char>| #[trigger]
        stats.contains_key(n) == mentions(events, n) && (stats.contains_key(n) ==> is_tool_of(
            stats[n],
            events,
            n,
        ))
}

/// Takes the entry of the tool `name` out of `stats`, or makes an empty one.
fn take_tool(stats: &mut StringMap<ToolAttribution>, name: &str) -> (r: ToolAttribution)
    ensures
        final(stats)@ == old(stats)@.remove(name@),
        old(stats)@.contains_key(name@) ==> r == old(stats)@[name@],
        !old(stats)@.contains_key(name@) ==> r.tool_name@ == name@ && r.call_count == 0
            && r.total_result_bytes == 0 && r.error_count == 0,
{
    match stats.remove(name) {
        Some(t) => t,
        None => ToolAttribution {
            tool_name: name.to_owned(),
            call_count: 0,
            total_result_bytes: 0,
            error_count: 0,
        },
    }
}

/// Adds one event to the tools.
fn note_tool(
    stats: &mut StringMap<ToolAttribution>,
    pending: &mut StringMap<String>,
    event: &SessionEvent,
    Ghost(seen): Ghost<Seq<SessionEvent>>,
)
    requires
        pending_tracked(seen, old(pending)@),
        tools_tracked(seen, old(stats)@),
    ensures
        pending_tracked(seen.push(*event), final(pending)@),
        tools_tracked(seen.push(*event), final(stats)@),
{
    let ghost now = seen.push(*event);
    let ghost s0 = stats@;
    let ghost p0 = pending@;
    proof {
        assert(now.drop_last() =~= seen);
    }
    match &event.payload {
        EventPayload::ToolCall { call_id, name, .. } => {
            pending.insert(call_id.clone(), name.clone());
            let t = take_tool(stats, name);
            let t = ToolAttribution { call_count: t.call_count.saturating_add(1), ..t };
            stats.insert(name.clone(), t);
            proof {
                assert(s0.contains_key(name@) == mentions(seen, name@));
                if !mentions(seen, name@) {
                    lemma_unmentioned(seen, name@);
                }
                assert forall|c: Seq<char>| #[trigger]
                    pending@.contains_key(c) == (pending_tool(now, c) is Some) && (
                    pending@.contains_key(c) ==> Some(pending@[c]@) == pending_tool(now, c)) by {
                    assert(p0.contains_key(c) == (pending_tool(seen, c) is Some));
                }
                assert forall|n: Seq<char>| #[trigger]
                    stats@.contains_key(n) == mentions(now, n) && (stats@.contains_key(n)
                        ==> is_tool_of(stats@[n], now, n)) by {
                    assert(s0.contains_key(n) == mentions(seen, n));
                }
            }
        },
        EventPayload::ToolResult { call_id, content, is_error } => {
            let name: String = match pending.remove(call_id) {
                Some(name) => name,
                None => "unknown".to_owned(),
            };
            let bytes: u64 = text::byte_len(content) as u64;
            let t = take_tool(stats, &name);
            let t = ToolAttribution {
                total_result_bytes: t.total_result_bytes.saturating_add(bytes),
                error_count: if *is_error {
                    t.error_count.saturating_add(1)
                } else {
                    t.error_count
                },
                ..t
            };
            proof {
                assert(p0.contains_key(call_id@) == (pending_tool(seen, call_id@) is Some));
                assert(name@ == tool_of_result(seen, call_id@));
            }
            let ghost key = name@;
            stats.insert(name, t);
            proof {
                assert(s0.contains_key(key) == mentions(seen, key));
                if !mentions(seen, key) {
                    lemma_unmentioned(seen, key);
                }
                assert forall|c: Seq<char>| #[trigger]
                    pending@.contains_key(c) == (pending_tool(now, c) is Some) && (
                    pending@.contains_key(c) ==> Some(pending@[c]@) == pending_tool(now, c)) by {
                    assert(p0.contains_key(c) == (pending_tool(seen, c) is Some));
                }
                assert forall|n: Seq<char>| #[trigger]
                    stats@.contains_key(n) == mentions(now, n) && (stats@.contains_key(n)
                        ==> is_tool_of(stats@[n], now, n)) by {
                    assert(s0.contains_key(n) == mentions(seen, n));
                }
            }
        },
        _ => {
            proof {
                assert forall|c: Seq<char>| #[trigger]
                    pending@.contains_key(c) == (pending_tool(now, c) is Some) && (
                    pending@.contains_key(c) ==> Some(pending@[c]@) == pending_tool(now, c)) by {
                    assert(p0.contains_key(c) == (pending_tool(seen, c) is Some));
                }
                assert forall|n: Seq<char>| #[trigger]
                    stats@.contains_key(n) == mentions(now, n) && (stats@.contains_key(n)
                        ==> is_tool_of(stats@[n], now, n)) by {
                    assert(s0.contains_key(n) == mentions(seen, n));
                }
            }
        },
    }
}

fn copy_tool(t: &ToolAttribution) -> (r: ToolAttribution)
    ensures
        r == *t,
{
    ToolAttribution {
        tool_name: t.tool_name.clone(),
        call_count: t.call_count,
        total_result_bytes: t.total_result_bytes,
        error_count: t.error_count,
    }
}

/// Lists the tools, those with more calls first.
fn list_tools(
    stats: &StringMap<ToolAttribution>,
    Ghost(events): Ghost<Seq<SessionEvent>>,
) -> (r: Vec<ToolAttribution>)
    requires
        tools_tracked(events, stats@),
    ensures
        are_tools_of(r@, events),
{
    let mut r: Vec<ToolAttribution> = Vec::new();
    let n: usize = stats.len();
    let ghost p = stats.pairs();
    let ghost mut from: Seq<int> = Seq::empty();
    let ghost mut to: Seq<int> = Seq::empty();
    proof {
        assert forall|k: int| 0 <= k < p.len() implies (#[trigger] p[k]).1.tool_name@ == p[k].0
            && mentions(events, p[k].0) && is_tool_of(p[k].1, events, p[k].0) by {
            string_map::lemma_pairs_map_at(p, k);
            assert(string_map::pairs_map(p).contains_key(p[k].0));
        }
    }
    let mut i: usize = 0;
    while i < n
        invariant
            i <= n,
            n == p.len(),
            p == stats.pairs(),
            string_map::strictly_sorted(p),
            forall|k: int| 0 <= k < p.len() ==> (#[trigger] p[k]).1.tool_name@ == p[k].0,
            r@.len() == i,
            from.len() == i,
            to.len() == i,
            forall|j: int| 0 <= j < i ==> 0 <= #[trigger] from[j] < i && r@[j] == p[from[j]].1,
            forall|k: int| 0 <= k < i ==> 0 <= #[trigger] to[k] < i && r@[to[k]] == p[k].1,
            forall|a: int, b: int| 0 <= a < b < r@.len() ==> before(r@[a], r@[b]),
        decreases n - i,
    {
        let t = copy_tool(stats.value_at(i));
        let mut at: usize = 0;
        while at < r.len() && r[at].call_count >= t.call_count
            invariant
                at <= r@.len(),
                forall|a: int| 0 <= a < at ==> (#[trigger] r@[a]).call_count >= t.call_count,
            decreases r@.len() - at,
        {
            at += 1;
        }
        let ghost was = r@;
        let ghost from0 = from;
        let ghost to0 = to;
        proof {
            assert(p[i as int].1.tool_name@ == p[i as int].0);
            assert forall|a: int| 0 <= a < at implies before(#[trigger] was[a], t) by {
                let k = from[a];
                assert(text::str_lt(p[k].0, p[i as int].0));
                assert(p[k].1.tool_name@ == p[k].0);
            }
            assert forall|a: int| at <= a < was.len() implies before(t, #[trigger] was[a]) by {
                if a > at {
                    assert(before(was[at as int], was[a]));
                }
            }
            from = from.insert(at as int, i as int);
            to = Seq::new(
                i as nat + 1,
                |k: int|
                    if k == i {
                        at as int
                    } else if to0[k] < at {
                        to0[k]
                    } else {
                        to0[k] + 1
                    },
            );
        }
        r.insert(at, t);
        proof {
            assert(r@ =~= was.insert(at as int, t));
            assert forall|j: int| 0 <= j < i + 1 implies 0 <= #[trigger] from[j] < i + 1 && r@[j]
                == p[from[j]].1 by {
                if j < at {
                    assert(from[j] == from0[j]);
                } else if j > at {
                    assert(from[j] == from0[j - 1]);
                }
            }
            assert forall|k: int| 0 <= k < i + 1 implies 0 <= #[trigger] to[k] < i + 1 && r@[to[k]]
                == p[k].1 by {
                if k < i {
                    assert(0 <= to0[k] < i && was[to0[k]] == p[k].1);
                }
            }
            assert forall|a: int, b: int| 0 <= a < b < r@.len() implies before(r@[a], r@[b]) by {
                if a < at && b > at {
                    assert(before(was[a], was[b - 1]));
                }
            }
        }
        i += 1;
    }
    proof {
        assert forall|j: int| 0 <= j < r@.len() implies mentions(
            events,
            (#[trigger] r@[j]).tool_name@,
        ) && is_tool_of(r@[j], events, r@[j].tool_name@) by {
            assert(r@[j] == p[from[j]].1);
        }
        assert forall|name: Seq<char>| #[trigger] mentions(events, name) implies exists|j: int|
            0 <= j < r@.len() && (#[trigger] r@[j]).tool_name@ == name by {
            assert(string_map::pairs_map(p).contains_key(name));
            let k = choose|k: int| 0 <= k < p.len() && #[trigger] p[k].0 == name;
            assert(r@[to[k]] == p[k].1);
        }
    }
    r
}

/// Attributes the context of a session to its model calls and tools, and sums up its usage. Sums
/// and counts stop at the greatest number of their type.
pub fn attribute(events: &[SessionEvent]) -> (r: ContextAttribution)
    ensures
        r.window_max is None,
        r.total_input_tokens == agent::clamp64(
            event_log::total(events@, |p: EventPayload| input_of(p)),
        ),
        r.total_output_tokens == agent::clamp64(
            event_log::total(events@, |p: EventPayload| output_of(p)),
        ),
        r.cache_read_tokens == agent::clamp64(
            event_log::total(events@, |p: EventPayload| reads_of(p)),
        ),
        r.cache_creation_tokens == agent::clamp64(
            event_log::total(events@, |p: EventPayload| writes_of(p)),
        ),
        r.user_message_count == agent::clamp32(
            event_log::count(events@, |p: EventPayload| p is UserMessage),
        ),
        r.assistant_message_count == agent::clamp32(
            event_log::count(events@, |p: EventPayload| p is AssistantMessageEvent),
        ),
        r.tool_result_count == agent::clamp32(
            event_log::count(events@, |p: EventPayload| p is ToolResult),
        ),
        match r.provider_model {
            Some((provider, model)) => event_log::first_provider(events@) == Some((provider@, model@)),
            None => event_log::first_provider(events@) is None,
        },
        are_calls_of(r.model_calls@, events@),
        are_tools_of(r.tool_attribution@, events@),
{
    let mut t = Tally {
        input: 0,
        output: 0,
        reads: 0,
        writes: 0,
        users: 0,
        assistants: 0,
        results: 0,
        provider_model: None,
    };
    let mut calls: Vec<ModelCallAttribution> = Vec::new();
    let mut current: Option<usize> = None;
    let mut stats: StringMap<ToolAttribution> = StringMap::new();
    let mut pending: StringMap<String> = StringMap::new();
    let mut i: usize = 0;
    proof {
        assert(events@.take(0) =~= Seq::empty());
    }
    while i < events.len()
        invariant
            i <= events@.len(),
            counted(events@.take(i as int), t),
            calls_tracked(events@.take(i as int), calls@, current),
            pending_tracked(events@.take(i as int), pending@),
            tools_tracked(events@.take(i as int), stats@),
        decreases events@.len() - i,
    {
        let ghost seen = events@.take(i as int);
        proof {
            assert(events@.take(i + 1) =~= seen.push(events@[i as int]));
        }
        t = tally(t, &events[i], Ghost(seen));
        current = note_call(&mut calls, current, &events[i], Ghost(seen));
        note_tool(&mut stats, &mut pending, &events[i], Ghost(seen));
        i += 1;
    }
    proof {
        assert(events@.take(events@.len() as int) =~= events@);
    }
    ContextAttribution {
        window_max: None,
        total_input_tokens: t.input,
        total_output_tokens: t.output,
        cache_read_tokens: t.reads,
        cache_creation_tokens: t.writes,
        model_calls: calls,
        tool_attribution: list_tools(&stats, Ghost(events@)),
        user_message_count: t.users,
        assistant_message_count: t.assistants,
        tool_result_count: t.results,
        provider_model: t.provider_model,
    }
}

/// A tool that is called appears among the tools, whether or not a result came back.
pub proof fn law_called_tools_are_listed(
    events: Seq<SessionEvent>,
    tools: Seq<ToolAttribution>,
    i: int,
)
    requires
        are_tools_of(tools, events),
        0 <= i < events.len(),
        events[i].payload is ToolCall,
    ensures
        exists|j: int|
            0 <= j < tools.len() && (#[trigger] tools[j]).tool_name@
                == events[i].payload->ToolCall_name@,
{
    lemma_mentions_call(events, i);
}

proof fn lemma_mentions_call(events: Seq<SessionEvent>, i: int)
    requires
        0 <= i < events.len(),
        events[i].payload is ToolCall,
    ensures
        mentions(events, events[i].payload->ToolCall_name@),
    decreases events.len(),
{
    if i < events.len() - 1 {
        lemma_mentions_call(events.drop_last(), i);
        assert(events.drop_last()[i] == events[i]);
    }
}

/// Every model call that was assembled appears exactly once.
pub proof fn law_each_model_call_once(
    events: Seq<SessionEvent>,
    calls: Seq<ModelCallAttribution>,
    i: int,
    j: int,
)
    requires
        are_calls_of(calls, events),
        0 <= i < calls.len(),
        0 <= j < calls.len(),
        calls[i].model_call_id == calls[j].model_call_id,
    ensures
        i == j,
{
    let o = call_order(events);
    assert(is_call_of(calls[i], events, o[i]));
    assert(is_call_of(calls[j], events, o[j]));
    lemma_last_assembly(events, o[i]);
    lemma_last_assembly(events, o[j]);
}

/// The sums of a context take in what finished asks report, each count under its own name, and
/// nothing else.
pub proof fn law_sums_take_in_finished_asks(p: EventPayload)
    ensures
        p is Done && p->Done_usage is Some ==> {
            let u = p->Done_usage->0;
            &&& input_of(p) == agent::count(u, 0)
            &&& output_of(p) == agent::count(u, 1)
            &&& reads_of(p) == agent::count(u, 2)
            &&& writes_of(p) == agent::count(u, 3)
        },
        !(p is Done) || p->Done_usage is None ==> input_of(p) == 0 && output_of(p) == 0 && reads_of(
            p,
        ) == 0 && writes_of(p) == 0,
{
}

/// A model call is what its assembly announces, each value under its own name, with the usage that
/// it is given.
pub proof fn law_calls_are_as_announced(
    p: EventPayload,
    usage: Option<Usage>,
    c: ModelCallAttribution,
)
    requires
        announced(p, usage, c),
    ensures
        p is ContextAssembly,
        c.model_call_id == p->ContextAssembly_model_call_id,
        c.message_count == p->ContextAssembly_message_count,
        c.user_message_count == p->ContextAssembly_user_message_count,
        c.assistant_message_count == p->ContextAssembly_assistant_message_count,
        c.tool_result_count == p->ContextAssembly_tool_result_count,
        c.tool_count == p->ContextAssembly_tool_count,
        c.token_count_estimate == p->ContextAssembly_token_count_estimate,
        c.provider_kind == p->ContextAssembly_provider_kind,
        c.model == p->ContextAssembly_model,
        c.renderer == p->ContextAssembly_renderer,
        c.cache_strategy == p->ContextAssembly_cache_strategy,
        c.span_count == p->ContextAssembly_span_count,
        c.cache_boundary_count == p->ContextAssembly_cache_boundary_count,
        c.usage == usage,
{
}

/// The model calls are those that were assembled, each once, in the order in which they first were.
pub proof fn law_calls_are_listed_in_order(events: Seq<SessionEvent>, e: SessionEvent, id: u32)
    ensures
        call_order(events).contains(id) <==> exists|i: int|
            0 <= i < events.len() && (#[trigger] events[i]).payload is ContextAssembly
                && events[i].payload->ContextAssembly_model_call_id == id,
        call_order(events).no_duplicates(),
        e.payload is ContextAssembly && !call_order(events).contains(
            e.payload->ContextAssembly_model_call_id,
        ) ==> call_order(events.push(e)) == call_order(events).push(
            e.payload->ContextAssembly_model_call_id,
        ),
        !(e.payload is ContextAssembly) || call_order(events).contains(
            e.payload->ContextAssembly_model_call_id,
        ) ==> call_order(events.push(e)) == call_order(events),
{
    assert(events.push(e).drop_last() =~= events);
    lemma_last_assembly(events, id);
    lemma_order_contains(events, id);
}

proof fn lemma_order_contains(events: Seq<SessionEvent>, id: u32)
    ensures
        call_order(events).contains(id) <==> exists|i: int|
            0 <= i < events.len() && (#[trigger] events[i]).payload is ContextAssembly
                && events[i].payload->ContextAssembly_model_call_id == id,
    decreases events.len(),
{
    if events.len() > 0 {
        let t = events.drop_last();
        let n = events.len() - 1;
        lemma_order_contains(t, id);
        assert(events[n] == events.last());
        if let Some(x) = call_id(events.last().payload) {
            seqs::lemma_push_contains(call_order(t), x);
        }
        if call_order(t).contains(id) {
            let i = choose|i: int|
                0 <= i < t.len() && (#[trigger] t[i]).payload is ContextAssembly
                    && t[i].payload->ContextAssembly_model_call_id == id;
            assert(events[i] == t[i]);
        }
        if exists|i: int|
            0 <= i < events.len() && (#[trigger] events[i]).payload is ContextAssembly
                && events[i].payload->ContextAssembly_model_call_id == id {
            let i = choose|i: int|
                0 <= i < events.len() && (#[trigger] events[i]).payload is ContextAssembly
                    && events[i].payload->ContextAssembly_model_call_id == id;
            if i < n {
                assert(t[i] == events[i]);
            }
        }
    }
}

/// A model call is described by the last of its assemblies.
pub proof fn law_the_last_assembly_describes_a_call(events: Seq<SessionEvent>, id: u32, i: int)
    requires
        0 <= i < events.len(),
        events[i].payload is ContextAssembly,
        events[i].payload->ContextAssembly_model_call_id == id,
        forall|j: int|
            i < j < events.len() ==> !((#[trigger] events[j]).payload is ContextAssembly)
                || events[j].payload->ContextAssembly_model_call_id != id,
    ensures
        last_assembly(events, id) == Some(i),
    decreases events.len(),
{
    let n = events.len() - 1;
    if i < n {
        assert(events[n] == events.last());
        let t = events.drop_last();
        assert forall|j: int| i < j < t.len() implies !((
        #[trigger] t[j]).payload is ContextAssembly)
            || t[j].payload->ContextAssembly_model_call_id != id by {
            assert(t[j] == events[j]);
        }
        law_the_last_assembly_describes_a_call(t, id, i);
    }
}

/// Whether an event ends the wait of an assembly for its usage: another assembly, or an ask that
/// reports usage.
pub open spec fn ends_wait(p: EventPayload) -> bool {
    p is ContextAssembly || (p is Done && p->Done_usage is Some)
}

/// An assembly gets the usage of the next ask that reports one, unless another assembly comes
/// before that, and then it gets none.
pub proof fn law_an_assembly_gets_the_next_usage(events: Seq<SessionEvent>, a: int, d: int)
    requires
        0 <= a < d <= events.len(),
        events[a].payload is ContextAssembly,
        forall|j: int| a < j < d ==> !ends_wait((#[trigger] events[j]).payload),
        d < events.len() ==> ends_wait(events[d].payload),
    ensures
        d < events.len() && events[d].payload is Done ==> usage_for(events, a)
            == events[d].payload->Done_usage,
        d == events.len() || events[d].payload is ContextAssembly ==> usage_for(events, a) is None,
        d == events.len() ==> waiting(events) == Some(a),
    decreases events.len(),
{
    let n = events.len() - 1;
    let t = events.drop_last();
    assert(events[n] == events.last());
    if n == a {
        lemma_waiting(t);
        lemma_no_usage_yet(t, a);
    } else if d == events.len() {
        assert forall|j: int| a < j < n implies !ends_wait((#[trigger] t[j]).payload) by {
            assert(t[j] == events[j]);
        }
        assert(t[a] == events[a]);
        law_an_assembly_gets_the_next_usage(t, a, n);
        assert(!ends_wait(events[n].payload));
    } else {
        assert forall|j: int| a < j < d implies !ends_wait((#[trigger] t[j]).payload) by {
            assert(t[j] == events[j]);
        }
        assert(t[a] == events[a]);
        law_an_assembly_gets_the_next_usage(t, a, d);
        if d < n {
            assert(t[d] == events[d]);
            lemma_wait_is_over(t, a, d);
        }
    }
}

proof fn lemma_wait_is_over(events: Seq<SessionEvent>, a: int, d: int)
    requires
        0 <= a < d < events.len(),
        ends_wait(events[d].payload),
    ensures
        waiting(events) != Some(a),
    decreases events.len(),
{
    let n = events.len() - 1;
    if d < n {
        assert(events.drop_last()[d] == events[d]);
        lemma_wait_is_over(events.drop_last(), a, d);
    }
}

/// A result belongs to the tool of the last call with its identifier, unless that call has its
/// result already or there is none: then the tool is unknown.
pub proof fn law_results_belong_to_the_last_call(
    events: Seq<SessionEvent>,
    call: Seq<char>,
    i: int,
)
    requires
        -1 <= i < events.len(),
        i >= 0 ==> events[i].payload is ToolCall && events[i].payload->ToolCall_call_id@ == call,
        forall|j: int|
            i < j < events.len() ==> !((#[trigger] events[j]).payload is ToolCall
                && events[j].payload->ToolCall_call_id@ == call),
    ensures
        i >= 0 && (forall|j: int|
            i < j < events.len() ==> !((#[trigger] events[j]).payload is ToolResult
                && events[j].payload->ToolResult_call_id@ == call)) ==> tool_of_result(events, call)
            == events[i].payload->ToolCall_name@,
        i == -1 || (exists|j: int|
            i < j < events.len() && (#[trigger] events[j]).payload is ToolResult
                && events[j].payload->ToolResult_call_id@ == call) ==> tool_of_result(events, call)
            == "unknown"@ && pending_tool(events, call) is None,
    decreases events.len(),
{
    if events.len() > 0 {
        let n = events.len() - 1;
        let t = events.drop_last();
        assert(events[n] == events.last());
        if i < n {
            assert forall|j: int| i < j < t.len() implies !((#[trigger] t[j]).payload is ToolCall
                && t[j].payload->ToolCall_call_id@ == call) by {
                assert(t[j] == events[j]);
            }
            if i >= 0 {
                assert(t[i] == events[i]);
            }
            law_results_belong_to_the_last_call(t, call, i);
            assert forall|j: int| i < j < t.len() implies #[trigger] t[j] == events[j] by {}
            if exists|j: int|
                i < j < events.len() && (#[trigger] events[j]).payload is ToolResult
                    && events[j].payload->ToolResult_call_id@ == call {
                let j = choose|j: int|
                    i < j < events.len() && (#[trigger] events[j]).payload is ToolResult
                        && events[j].payload->ToolResult_call_id@ == call;
                if j < n {
                    assert(t[j] == events[j]);
                }
            }
        }
    }
}

/// A call counts for the tool it calls, a result for the tool it belongs to, with its bytes and
/// with its error if it is one, and any other event for no tool.
pub proof fn law_tools_are_charged_with_their_own(
    events: Seq<SessionEvent>,
    e: SessionEvent,
    name: Seq<char>,
)
    ensures
        ({
            let before = tool_totals(events, name);
            let after = tool_totals(events.push(e), name);
            let called = e.payload is ToolCall && e.payload->ToolCall_name@ == name;
            let answered = e.payload is ToolResult && tool_of_result(
                events,
                e.payload->ToolResult_call_id@,
            ) == name;
            &&& called ==> after.calls == before.calls + 1 && after.bytes == before.bytes
                && after.errors == before.errors
            &&& answered ==> after.calls == before.calls && after.bytes == before.bytes
                + text::byte_len_view(e.payload->ToolResult_content@)
            &&& answered && e.payload->ToolResult_is_error ==> after.errors == before.errors + 1
            &&& answered && !e.payload->ToolResult_is_error ==> after.errors == before.errors
            &&& !called && !answered ==> after == before
            &&& mentions(events.push(e), name) <==> mentions(events, name) || called || answered
        }),
        tool_totals(Seq::empty(), name).calls == 0,
        tool_totals(Seq::empty(), name).bytes == 0,
        tool_totals(Seq::empty(), name).errors == 0,
        !mentions(Seq::empty(), name),
{
    assert(events.push(e).drop_last() =~= events);
}

/// The calls of a tool are the calls in the log that name it.
pub proof fn law_calls_of_a_tool_are_counted(events: Seq<SessionEvent>, name: Seq<char>)
    ensures
        tool_totals(events, name).calls == event_log::count(
            events,
            |p: EventPayload| p is ToolCall && p->ToolCall_name@ == name,
        ),
    decreases events.len(),
{
    if events.len() > 0 {
        law_calls_of_a_tool_are_counted(events.drop_last(), name);
    }
}

/// A tool is listed with its totals, as far as the numbers go.
pub proof fn law_listed_tools_show_their_totals(
    t: ToolAttribution,
    events: Seq<SessionEvent>,
    name: Seq<char>,
)
    requires
        is_tool_of(t, events, name),
    ensures
        t.tool_name@ == name,
        tool_totals(events, name).calls <= u32::MAX ==> t.call_count == tool_totals(
            events,
            name,
        ).calls,
        tool_totals(events, name).bytes <= u64::MAX ==> t.total_result_bytes == tool_totals(
            events,
            name,
        ).bytes,
        tool_totals(events, name).errors <= u32::MAX ==> t.error_count == tool_totals(
            events,
            name,
        ).errors,
{
}

/// Every tool is listed once, those with more calls first and equals by name: of two tools with
/// different names exactly one comes first.
pub proof fn law_tools_are_listed_by_calls(
    tools: Seq<ToolAttribution>,
    events: Seq<SessionEvent>,
    i: int,
    j: int,
)
    requires
        are_tools_of(tools, events),
        0 <= i < j < tools.len(),
    ensures
        tools[i].call_count >= tools[j].call_count,
        tools[i].call_count == tools[j].call_count ==> text::str_lt(
            tools[i].tool_name@,
            tools[j].tool_name@,
        ),
        tools[i].tool_name@ != tools[j].tool_name@,
        mentions(events, tools[i].tool_name@),
        is_tool_of(tools[i], events, tools[i].tool_name@),
{
    assert(before(tools[i], tools[j]));
    let a = tools[i];
    let b = tools[j];
    if a.tool_name@ == b.tool_name@ {
        text::lemma_str_lt_irreflexive(a.tool_name@);
        assert(is_tool_of(a, events, a.tool_name@));
        assert(is_tool_of(b, events, b.tool_name@));
    }
}

/// An attribution sums up what finished asks report, count by count, and counts messages and results
/// one by one; it names the provider that the session was created with and knows no window.
pub proof fn law_attributions_sum_up_the_session(events: &[SessionEvent], r: ContextAttribution)
    requires
        call_ensures(attribute, (events,), r),
    ensures
        event_log::holds_total(
            r.total_input_tokens as nat,
            event_log::total(events@, |p: EventPayload| input_of(p)),
            u64::MAX as nat,
        ),
        event_log::holds_total(
            r.total_output_tokens as nat,
            event_log::total(events@, |p: EventPayload| output_of(p)),
            u64::MAX as nat,
        ),
        event_log::holds_total(
            r.cache_read_tokens as nat,
            event_log::total(events@, |p: EventPayload| reads_of(p)),
            u64::MAX as nat,
        ),
        event_log::holds_total(
            r.cache_creation_tokens as nat,
            event_log::total(events@, |p: EventPayload| writes_of(p)),
            u64::MAX as nat,
        ),
        event_log::holds_total(
            r.user_message_count as nat,
            event_log::count(events@, |p: EventPayload| p is UserMessage),
            u32::MAX as nat,
        ),
        event_log::holds_total(
            r.assistant_message_count as nat,
            event_log::count(events@, |p: EventPayload| p is AssistantMessageEvent),
            u32::MAX as nat,
        ),
        event_log::holds_total(
            r.tool_result_count as nat,
            event_log::count(events@, |p: EventPayload| p is ToolResult),
            u32::MAX as nat,
        ),
        r.window_max is None,
        r.provider_model is Some <==> event_log::first_provider(events@) is Some,
        r.provider_model matches Some((provider, model)) ==> event_log::first_provider(events@)
            == Some((provider@, model@)),
        are_calls_of(r.model_calls@, events@),
        are_tools_of(r.tool_attribution@, events@),
{
}

} // verus!
