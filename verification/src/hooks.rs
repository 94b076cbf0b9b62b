//! Lifecycle hooks: commands of the operator that run on events of the agent loop.
//!
//! Only the hooks before a tool call can refuse it. A hook that fails in whatever way refuses
//! nothing.
use vstd::prelude::*;

use crate::json;
use crate::seqs;
use crate::text;

verus! {

/// The hooks as they are configured.
#[derive(Debug, Clone, PartialEq)]
pub struct HooksConfig {
    pub enabled: bool,
    pub entries: Vec<HookEntryConfig>,
}

/// A hook as it is configured.
#[derive(Debug, Clone, PartialEq)]
pub struct HookEntryConfig {
    pub event: String,
    pub matcher: Option<String>,
    pub command: String,
    pub timeout_ms: Option<u64>,
}

/// The moment that a hook is attached to.
#[derive(Debug, Clone, Copy, PartialEq, Eq, Structural)]
pub enum HookEventKind {
    SessionStart,
    PreToolUse,
    PostToolUse,
    Stop,
}

/// How long a hook may run unless its configuration says otherwise, in milliseconds.
pub const DEFAULT_TIMEOUT_MS: u64 = 30_000;

/// How many bytes of a hook's output are kept.
pub const OUTPUT_CAP: usize = 16384;

/// How many bytes of a tool's result an observer is shown.
pub const POST_CONTENT_CAP: usize = 8192;

/// How many characters of a hook's error output stand in a reason.
pub const REASON_CAP: usize = 512;

impl HookEventKind {
    /// The name of an event.
    pub open spec fn name_view(self) -> Seq<char> {
        match self {
            HookEventKind::SessionStart => "SessionStart"@,
            HookEventKind::PreToolUse => "PreToolUse"@,
            HookEventKind::PostToolUse => "PostToolUse"@,
            HookEventKind::Stop => "Stop"@,
        }
    }

    /// The event of a name.
    pub open spec fn parsed(s: Seq<char>) -> Option<HookEventKind> {
        if s == "SessionStart"@ {
            Some(HookEventKind::SessionStart)
        } else if s == "PreToolUse"@ {
            Some(HookEventKind::PreToolUse)
        } else if s == "PostToolUse"@ {
            Some(HookEventKind::PostToolUse)
        } else if s == "Stop"@ {
            Some(HookEventKind::Stop)
        } else {
            None
        }
    }

    /// The event of a name.
    pub fn parse(s: &str) -> (r: Option<Self>)
        ensures
            r == Self::parsed(s@),
    {
        if text::same(s, "SessionStart") {
            Some(HookEventKind::SessionStart)
        } else if text::same(s, "PreToolUse") {
            Some(HookEventKind::PreToolUse)
        } else if text::same(s, "PostToolUse") {
            Some(HookEventKind::PostToolUse)
        } else if text::same(s, "Stop") {
            Some(HookEventKind::Stop)
        } else {
            None
        }
    }

    /// The name of an event.
    pub fn name(&self) -> (r: &'static str)
        ensures
            r@ == self.name_view(),
    {
        match self {
            HookEventKind::SessionStart => "SessionStart",
            HookEventKind::PreToolUse => "PreToolUse",
            HookEventKind::PostToolUse => "PostToolUse",
            HookEventKind::Stop => "Stop",
        }
    }
}

/// Each name is that of one event.
pub proof fn law_event_names_round_trip(kind: HookEventKind)
    ensures
        HookEventKind::parsed(kind.name_view()) == Some(kind),
{
    reveal_strlit("SessionStart");
    reveal_strlit("PreToolUse");
    reveal_strlit("PostToolUse");
    reveal_strlit("Stop");
    assert("SessionStart"@.len() == 12);
    assert("PreToolUse"@.len() == 10);
    assert("PostToolUse"@.len() == 11);
    assert("Stop"@.len() == 4);
}

/// A hook.
#[derive(Debug, Clone, PartialEq)]
pub struct HookEntry {
    pub event: HookEventKind,
    /// The tool that the hook is for: all without a matcher, those that begin with what stands
    /// before a final asterisk, else the one of that name.
    pub matcher: Option<String>,
    pub command: String,
    pub timeout_ms: u64,
}

/// The contents of a [`HookEntry`].
pub struct HookEntryView {
    pub event: HookEventKind,
    pub matcher: Option<Seq<char>>,
    pub command: Seq<char>,
    pub timeout_ms: u64,
}

impl DeepView for HookEntry {
    type V = HookEntryView;

    open spec fn deep_view(&self) -> HookEntryView {
        HookEntryView {
            event: self.event,
            matcher: self.matcher.deep_view(),
            command: self.command@,
            timeout_ms: self.timeout_ms,
        }
    }
}

impl HookEntryView {
    /// Whether the hook is for a tool.
    pub open spec fn matches(self, tool: Seq<char>) -> bool {
        match self.matcher {
            None => true,
            Some(m) => if text::has_suffix(m, "*"@) {
                text::has_prefix(tool, m.take(m.len() - "*"@.len()))
            } else {
                tool == m
            },
        }
    }

    /// Whether the hook listens to an event, of a tool if there is one.
    pub open spec fn listens_to(self, kind: HookEventKind, tool: Option<Seq<char>>) -> bool {
        self.event == kind && match tool {
            Some(t) => self.matches(t),
            None => true,
        }
    }
}

impl HookEntry {
    /// Whether the hook is for a tool.
    pub fn matches_tool(&self, tool_name: &str) -> (r: bool)
        ensures
            r == self.deep_view().matches(tool_name@),
    {
        match &self.matcher {
            None => true,
            Some(m) => match text::strip_suffix(m, "*") {
                Some(prefix) => text::starts_with(tool_name, prefix),
                None => text::same(tool_name, m),
            },
        }
    }

    fn is_for(&self, kind: HookEventKind, tool: Option<&str>) -> (r: bool)
        ensures
            r == self.deep_view().listens_to(kind, tool_view(tool)),
    {
        self.event == kind && match tool {
            Some(t) => self.matches_tool(t),
            None => true,
        }
    }
}

/// The name of a tool that may be absent.
pub open spec fn tool_view(tool: Option<&str>) -> Option<Seq<char>> {
    match tool {
        Some(t) => Some(t@),
        None => None,
    }
}

/// A command with a leading `~/` replaced by the home directory, if that is known.
pub open spec fn expanded(command: Seq<char>, home: Option<Seq<char>>) -> Seq<char> {
    if text::has_prefix(command, "~/"@) && home is Some {
        home->0 + "/"@ + command.skip("~/"@.len() as int)
    } else {
        command
    }
}

/// Replaces a leading `~/` by the home directory, if that is known.
pub fn expand_leading_tilde(command: &str, home: Option<&str>) -> (r: String)
    ensures
        r@ == expanded(command@, tool_view(home)),
{
    match (text::strip_prefix(command, "~/"), home) {
        (Some(rest), Some(home)) => home.to_owned().concat("/").concat(rest),
        _ => command.to_owned(),
    }
}

/// The hook of an entry: none if its event is not known or its command is blank.
pub open spec fn hook_of(e: HookEntryConfig, home: Option<Seq<char>>) -> Option<HookEntryView> {
    match HookEventKind::parsed(e.event@) {
        Some(event) => if text::trim_view(e.command@).len() == 0 {
            None
        } else {
            Some(
                HookEntryView {
                    event,
                    matcher: e.matcher.deep_view(),
                    command: expanded(e.command@, home),
                    timeout_ms: match e.timeout_ms {
                        Some(ms) => ms,
                        None => DEFAULT_TIMEOUT_MS,
                    },
                },
            )
        },
        None => None,
    }
}

/// The hooks of entries, in order.
pub open spec fn hooks_of(entries: Seq<HookEntryConfig>, home: Option<Seq<char>>) -> Seq<
    HookEntryView,
>
    decreases entries.len(),
{
    if entries.len() == 0 {
        Seq::empty()
    } else {
        let before = hooks_of(entries.drop_last(), home);
        match hook_of(entries.last(), home) {
            Some(h) => before.push(h),
            None => before,
        }
    }
}

/// Why an entry gives no hook.
#[derive(Debug, Clone, Copy, PartialEq, Eq, Structural)]
pub enum SkipReason {
    /// Its event is not known.
    UnknownEvent,
    /// Its command is blank.
    EmptyCommand,
}

impl SkipReason {
    /// The reason in words.
    pub open spec fn text(self) -> Seq<char> {
        match self {
            SkipReason::UnknownEvent =>
                "hooks: unknown event name; entry skipped (expected SessionStart|PreToolUse|PostToolUse|Stop)"@,
            SkipReason::EmptyCommand => "hooks: empty command; entry skipped"@,
        }
    }

    /// The reason in words.
    pub fn message(&self) -> (r: &'static str)
        ensures
            r@ == self.text(),
    {
        match self {
            SkipReason::UnknownEvent =>
                "hooks: unknown event name; entry skipped (expected SessionStart|PreToolUse|PostToolUse|Stop)",
            SkipReason::EmptyCommand => "hooks: empty command; entry skipped",
        }
    }
}

/// Why an entry gives no hook, if it gives none.
pub open spec fn skip_of(e: HookEntryConfig) -> Option<SkipReason> {
    if HookEventKind::parsed(e.event@) is None {
        Some(SkipReason::UnknownEvent)
    } else if text::trim_view(e.command@).len() == 0 {
        Some(SkipReason::EmptyCommand)
    } else {
        None
    }
}

/// The places of the entries that give no hook, in order, each with the reason.
pub open spec fn skips_of(entries: Seq<HookEntryConfig>) -> Seq<(usize, SkipReason)>
    decreases entries.len(),
{
    if entries.len() == 0 {
        Seq::empty()
    } else {
        let before = skips_of(entries.drop_last());
        match skip_of(entries.last()) {
            Some(reason) => before.push(((entries.len() - 1) as usize, reason)),
            None => before,
        }
    }
}

/// The places of the entries of an enabled configuration that give no hook, in order, each with
/// the reason.
pub fn skipped_entries(cfg: &HooksConfig) -> (r: Vec<(usize, SkipReason)>)
    ensures
        r@ == (if cfg.enabled {
            skips_of(cfg.entries@)
        } else {
            Seq::empty()
        }),
{
    let mut r: Vec<(usize, SkipReason)> = Vec::new();
    if !cfg.enabled {
        return r;
    }
    let mut i: usize = 0;
    proof {
        assert(cfg.entries@.take(0) =~= Seq::empty());
    }
    while i < cfg.entries.len()
        invariant
            i <= cfg.entries@.len(),
            r@ == skips_of(cfg.entries@.take(i as int)),
        decreases cfg.entries@.len() - i,
    {
        proof {
            seqs::lemma_take_step(cfg.entries@, i as int);
        }
        let e = &cfg.entries[i];
        if HookEventKind::parse(&e.event).is_none() {
            r.push((i, SkipReason::UnknownEvent));
        } else if text::trim(&e.command).unicode_len() == 0 {
            r.push((i, SkipReason::EmptyCommand));
        }
        i += 1;
    }
    proof {
        assert(cfg.entries@.take(cfg.entries@.len() as int) =~= cfg.entries@);
    }
    r
}

/// An entry gives a hook exactly if there is no reason to skip it, and so every entry is either a
/// hook or listed as skipped.
pub proof fn law_entries_are_hooks_or_skipped(
    entries: Seq<HookEntryConfig>,
    home: Option<Seq<char>>,
)
    ensures
        forall|e: HookEntryConfig| #[trigger] hook_of(e, home) is Some <==> skip_of(e) is None,
        hooks_of(entries, home).len() + skips_of(entries).len() == entries.len(),
    decreases entries.len(),
{
    if entries.len() > 0 {
        law_entries_are_hooks_or_skipped(entries.drop_last(), home);
        assert(hook_of(entries.last(), home) is Some <==> skip_of(entries.last()) is None);
    }
}

fn make_hook(e: &HookEntryConfig, home: Option<&str>) -> (r: Option<HookEntry>)
    ensures
        r.deep_view() == hook_of(*e, tool_view(home)),
{
    let event = match HookEventKind::parse(&e.event) {
        Some(event) => event,
        None => {
            return None;
        },
    };
    if text::trim(&e.command).unicode_len() == 0 {
        return None;
    }
    Some(
        HookEntry {
            event,
            matcher: e.matcher.clone(),
            command: expand_leading_tilde(&e.command, home),
            timeout_ms: match e.timeout_ms {
                Some(ms) => ms,
                None => DEFAULT_TIMEOUT_MS,
            },
        },
    )
}

/// What a hook left behind when it ran.
#[derive(Debug, Clone, PartialEq)]
pub struct RunOutput {
    pub exit_code: Option<i32>,
    pub stdout: String,
    pub stderr: String,
    pub timed_out: bool,
}

/// The text that bytes stand for in UTF-8, with replacement characters for what is not UTF-8.
pub uninterp spec fn lossy_text(bytes: Seq<u8>) -> Seq<char>;

/// Calls `String::from_utf8_lossy`. What is claimed is that the result depends on the bytes alone.
#[verifier::external_body]
fn from_utf8_lossy(bytes: &[u8]) -> (r: String)
    ensures
        r@ == lossy_text(bytes@),
{
    String::from_utf8_lossy(bytes).into_owned()
}

/// The output of a hook as text, of which at most [`OUTPUT_CAP`] bytes are kept.
pub fn cap_output(bytes: &[u8]) -> (r: String)
    ensures
        text::is_capped(r@, lossy_text(bytes@), OUTPUT_CAP as nat),
{
    let s = from_utf8_lossy(bytes);
    text::cap_bytes(&s, OUTPUT_CAP).to_owned()
}

impl RunOutput {
    /// A hook that could not be run, or whose end could not be awaited.
    pub fn failed() -> (r: Self)
        ensures
            r.exit_code is None,
            r.stdout@ == Seq::<char>::empty(),
            r.stderr@ == Seq::<char>::empty(),
            !r.timed_out,
    {
        RunOutput {
            exit_code: None,
            stdout: String::new(),
            stderr: String::new(),
            timed_out: false,
        }
    }

    /// A hook that ran too long.
    pub fn expired() -> (r: Self)
        ensures
            r.exit_code is None,
            r.stdout@ == Seq::<char>::empty(),
            r.stderr@ == Seq::<char>::empty(),
            r.timed_out,
    {
        RunOutput {
            exit_code: None,
            stdout: String::new(),
            stderr: String::new(),
            timed_out: true,
        }
    }

    /// A hook that ended.
    pub fn ended(exit_code: Option<i32>, stdout: &[u8], stderr: &[u8]) -> (r: Self)
        ensures
            r.exit_code == exit_code,
            text::is_capped(r.stdout@, lossy_text(stdout@), OUTPUT_CAP as nat),
            text::is_capped(r.stderr@, lossy_text(stderr@), OUTPUT_CAP as nat),
            !r.timed_out,
    {
        RunOutput {
            exit_code,
            stdout: cap_output(stdout),
            stderr: cap_output(stderr),
            timed_out: false,
        }
    }
}

/// The first characters of `s`, at most `n`.
pub open spec fn first_chars(s: Seq<char>, n: int) -> Seq<char> {
    if s.len() > n {
        s.take(n)
    } else {
        s
    }
}

fn take_chars(s: &str, n: usize) -> (r: String)
    ensures
        r@ == first_chars(s@, n as int),
{
    if s.unicode_len() > n {
        let r = s.substring_char(0, n);
        proof {
            assert(r@ =~= s@.take(n as int));
        }
        r.to_owned()
    } else {
        s.to_owned()
    }
}

/// Why a hook refuses a tool call, if it does: it exits with code 2, and what it wrote to its error
/// output is the reason; or the decision that it printed is to deny, with the reason that it gave.
/// A hook that ran too long refuses nothing.
pub open spec fn denial(
    command: Seq<char>,
    out: RunOutput,
    decision: Option<Seq<char>>,
    reason: Option<Seq<char>>,
) -> Option<Seq<char>> {
    let stderr = text::trim_view(out.stderr@);
    if out.timed_out {
        None
    } else if out.exit_code == Some(2i32) {
        if stderr.len() == 0 {
            Some("denied by hook `"@ + command + "` (exit 2)"@)
        } else {
            Some("denied by hook `"@ + command + "`: "@ + first_chars(stderr, REASON_CAP as int))
        }
    } else if decision == Some("deny"@) {
        Some(
            "denied by hook `"@ + command + "`: "@ + match reason {
                Some(r) => r,
                None => "no reason given"@,
            },
        )
    } else {
        None
    }
}

/// Why a hook refuses a tool call, if it does. The decision and the reason are those of the JSON
/// object that the hook printed.
pub open spec fn verdict(command: Seq<char>, out: RunOutput) -> Option<Seq<char>> {
    denial(
        command,
        out,
        json::string_at(text::trim_view(out.stdout@), "decision"@),
        json::string_at(text::trim_view(out.stdout@), "reason"@),
    )
}

/// Why a hook refuses a tool call, given the decision and the reason that it printed.
pub fn deny_given(
    command: &str,
    out: &RunOutput,
    decision: Option<&str>,
    reason: Option<&str>,
) -> (r: Option<String>)
    ensures
        r.deep_view() == denial(command@, *out, tool_view(decision), tool_view(reason)),
{
    if out.timed_out {
        return None;
    }
    if let Some(code) = out.exit_code {
        if code == 2 {
            let stderr = text::trim(&out.stderr);
            return if stderr.unicode_len() == 0 {
                Some("denied by hook `".to_owned().concat(command).concat("` (exit 2)"))
            } else {
                let tail = take_chars(stderr, REASON_CAP);
                Some("denied by hook `".to_owned().concat(command).concat("`: ").concat(&tail))
            };
        }
    }
    if let Some(d) = decision {
        if text::same(d, "deny") {
            let reason = match reason {
                Some(r) => r,
                None => "no reason given",
            };
            return Some(
                "denied by hook `".to_owned().concat(command).concat("`: ").concat(reason),
            );
        }
    }
    None
}

/// Why a hook refuses a tool call, if it does.
pub fn deny_reason(entry: &HookEntry, out: &RunOutput) -> (r: Option<String>)
    ensures
        r.deep_view() == verdict(entry.command@, *out),
{
    let stdout = text::trim(&out.stdout);
    let decision = json::member_string(stdout, "decision");
    let reason = json::member_string(stdout, "reason");
    deny_given(&entry.command, out, str_of(&decision), str_of(&reason))
}

fn str_of(s: &Option<String>) -> (r: Option<&str>)
    ensures
        tool_view(r) == s.deep_view(),
{
    match s {
        Some(s) => Some(s.as_str()),
        None => None,
    }
}

/// The hooks of a process.
#[derive(Debug)]
pub struct HookEngine {
    entries: Vec<HookEntry>,
}

impl View for HookEngine {
    type V = Seq<HookEntryView>;

    closed spec fn view(&self) -> Seq<HookEntryView> {
        self.entries.deep_view()
    }
}

/// Whether a hook is asked before a tool call.
pub open spec fn gates(h: HookEntryView, tool: Seq<char>) -> bool {
    h.listens_to(HookEventKind::PreToolUse, Some(tool))
}

/// The first hook from `from` on that is asked before a call of `tool`.
pub open spec fn next_gate(hooks: Seq<HookEntryView>, tool: Seq<char>, from: int) -> Option<int>
    decreases hooks.len() - from,
{
    if from < 0 || from >= hooks.len() {
        None
    } else if gates(hooks[from], tool) {
        Some(from)
    } else {
        next_gate(hooks, tool, from + 1)
    }
}

/// What is done next before a tool call.
#[derive(Debug, PartialEq)]
pub enum GateStep {
    /// Run the hook at this place.
    Run { index: usize },
    /// The call is refused for this reason, or is allowed.
    Finished { deny: Option<String> },
}

/// The step that runs the hook at a place, or allows the call if there is none.
pub open spec fn runs(step: GateStep, next: Option<int>) -> bool {
    match next {
        Some(i) => step is Run && step->index == i,
        None => step is Finished && step->deny is None,
    }
}

/// What asking comes to from the hook `from` on, if the hook at each place leaves behind
/// `outputs`: the reason of the first hook that refuses.
pub open spec fn gated(
    hooks: Seq<HookEntryView>,
    tool: Seq<char>,
    outputs: spec_fn(int) -> RunOutput,
    from: int,
) -> Option<Seq<char>>
    decreases hooks.len() - from,
{
    if from < 0 || from >= hooks.len() {
        None
    } else if gates(hooks[from], tool) && verdict(hooks[from].command, outputs(from)) is Some {
        verdict(hooks[from].command, outputs(from))
    } else {
        gated(hooks, tool, outputs, from + 1)
    }
}

impl HookEngine {
    /// The hooks of a configuration: none if it is not enabled or has no valid entry. `home` is the
    /// home directory.
    pub fn from_config(cfg: &HooksConfig, home: Option<&str>) -> (r: Option<Self>)
        ensures
            match r {
                Some(e) => cfg.enabled && e@ == hooks_of(cfg.entries@, tool_view(home)) && e@.len()
                    > 0,
                None => !cfg.enabled || hooks_of(cfg.entries@, tool_view(home)).len() == 0,
            },
    {
        if !cfg.enabled {
            return None;
        }
        let mut entries: Vec<HookEntry> = Vec::new();
        let mut i: usize = 0;
        proof {
            assert(entries.deep_view() =~= Seq::empty());
            assert(cfg.entries@.take(0) =~= Seq::empty());
        }
        while i < cfg.entries.len()
            invariant
                i <= cfg.entries@.len(),
                entries.deep_view() == hooks_of(cfg.entries@.take(i as int), tool_view(home)),
            decreases cfg.entries@.len() - i,
        {
            proof {
                seqs::lemma_take_step(cfg.entries@, i as int);
            }
            let ghost before = entries.deep_view();
            if let Some(hook) = make_hook(&cfg.entries[i], home) {
                entries.push(hook);
                proof {
                    assert(entries.deep_view() =~= before.push(hook.deep_view()));
                }
            }
            i += 1;
        }
        proof {
            assert(cfg.entries@.take(cfg.entries@.len() as int) =~= cfg.entries@);
        }
        if entries.len() == 0 {
            return None;
        }
        Some(HookEngine { entries })
    }

    /// The hooks, in order.
    pub fn entries(&self) -> (r: &Vec<HookEntry>)
        ensures
            r.deep_view() == self@,
    {
        &self.entries
    }

    /// Whether some hook is attached to an event.
    pub fn listens(&self, kind: HookEventKind) -> (r: bool)
        ensures
            r == exists|i: int| 0 <= i < self@.len() && (#[trigger] self@[i]).event == kind,
    {
        let mut i: usize = 0;
        while i < self.entries.len()
            invariant
                i <= self.entries@.len(),
                forall|j: int| 0 <= j < i ==> (#[trigger] self@[j]).event != kind,
            decreases self.entries@.len() - i,
        {
            proof {
                assert(self@[i as int] == self.entries@[i as int].deep_view());
            }
            if self.entries[i].event == kind {
                return true;
            }
            i += 1;
        }
        false
    }

    /// The hooks that observe an event, of a tool if there is one, in the order in which they run.
    pub fn observers(&self, kind: HookEventKind, tool_name: Option<&str>) -> (r: Vec<&HookEntry>)
        ensures
            r.deep_view() == self@.filter(
                |h: HookEntryView| h.listens_to(kind, tool_view(tool_name)),
            ),
    {
        let ghost p = |h: HookEntryView| h.listens_to(kind, tool_view(tool_name));
        let mut r: Vec<&HookEntry> = Vec::new();
        let mut i: usize = 0;
        proof {
            seqs::lemma_filter_start(self@, p);
            assert(r.deep_view() =~= Seq::empty());
        }
        while i < self.entries.len()
            invariant
                i <= self.entries@.len(),
                p == (|h: HookEntryView| h.listens_to(kind, tool_view(tool_name))),
                r.deep_view() == self@.take(i as int).filter(p),
            decreases self.entries@.len() - i,
        {
            proof {
                seqs::lemma_filter_step(self@, i as int, p);
                assert(self@[i as int] == self.entries@[i as int].deep_view());
            }
            let ghost before = r.deep_view();
            if self.entries[i].is_for(kind, tool_name) {
                r.push(&self.entries[i]);
                proof {
                    assert(r.deep_view() =~= before.push(self@[i as int]));
                }
            }
            i += 1;
        }
        proof {
            assert(self@.take(self@.len() as int) =~= self@);
        }
        r
    }

    fn next_from(&self, tool_name: &str, from: usize) -> (r: GateStep)
        ensures
            runs(r, next_gate(self@, tool_name@, from as int)),
    {
        let mut i: usize = from;
        while i < self.entries.len()
            invariant
                next_gate(self@, tool_name@, from as int) == next_gate(
                    self@,
                    tool_name@,
                    i as int,
                ),
            decreases self.entries@.len() - i,
        {
            proof {
                assert(self@[i as int] == self.entries@[i as int].deep_view());
            }
            if self.entries[i].is_for(HookEventKind::PreToolUse, Some(tool_name)) {
                return GateStep::Run { index: i };
            }
            i += 1;
        }
        GateStep::Finished { deny: None }
    }

    /// The first step before a call of `tool_name`.
    pub fn gate_begin(&self, tool_name: &str) -> (r: GateStep)
        ensures
            runs(r, next_gate(self@, tool_name@, 0)),
    {
        self.next_from(tool_name, 0)
    }

    /// The step after the hook at `index` left `out` behind: the first hook that refuses ends the
    /// asking.
    pub fn gate_continue(&self, tool_name: &str, index: usize, out: &RunOutput) -> (r: GateStep)
        requires
            index < self@.len(),
        ensures
            match verdict(self@[index as int].command, *out) {
                Some(reason) => r is Finished && r->deny.deep_view() == Some(reason),
                None => runs(r, next_gate(self@, tool_name@, index + 1)),
            },
    {
        let n: usize = self.entries.len();
        proof {
            assert(index < n);
            assert(self@[index as int] == self.entries@[index as int].deep_view());
        }
        match deny_reason(&self.entries[index], out) {
            Some(reason) => GateStep::Finished { deny: Some(reason) },
            None => self.next_from(tool_name, index + 1),
        }
    }
}

/// The variables of the environment that a hook is given, besides the name of its event.
pub open spec fn passed_variables_view() -> Seq<Seq<char>> {
    seq!["PATH"@, "HOME"@, "USER"@, "LANG"@, "TMPDIR"@]
}

/// The variables of the environment that a hook is given, besides the name of its event.
pub fn passed_variables() -> (r: Vec<&'static str>)
    ensures
        r.deep_view() == passed_variables_view(),
{
    let r = vec!["PATH", "HOME", "USER", "LANG", "TMPDIR"];
    proof {
        assert(r.deep_view() =~= passed_variables_view());
    }
    r
}

/// What a hook before a tool call is told, from the JSON texts of the tool's name and its input.
pub open spec fn pre_tool_text(tool_name: Seq<char>, tool_input: Seq<char>) -> Seq<char> {
    "{\"hook_event_name\":\"PreToolUse\",\"tool_input\":"@ + tool_input + ",\"tool_name\":"@
        + tool_name + "}"@
}

/// What a hook before a tool call is told. `tool_input` is the JSON text of the input.
pub fn pre_tool_payload(tool_name: &str, tool_input: &str) -> (r: String)
    ensures
        r@ == pre_tool_text(json::quoted(tool_name@), tool_input@),
{
    let name = json::quote(tool_name);
    "{\"hook_event_name\":\"PreToolUse\",\"tool_input\":".to_owned().concat(tool_input).concat(
        ",\"tool_name\":",
    ).concat(&name).concat("}")
}

/// What a hook at the start of a session is told, from the JSON texts of its values.
pub open spec fn session_start_text(session_id: Seq<char>, cwd: Seq<char>) -> Seq<char> {
    "{\"cwd\":"@ + cwd + ",\"hook_event_name\":\"SessionStart\",\"session_id\":"@ + session_id
        + "}"@
}

/// What a hook at the start of a session is told.
pub fn session_start_payload(session_id: &str, cwd: &str) -> (r: String)
    ensures
        r@ == session_start_text(json::quoted(session_id@), json::quoted(cwd@)),
{
    let session = json::quote(session_id);
    let cwd = json::quote(cwd);
    "{\"cwd\":".to_owned().concat(&cwd).concat(
        ",\"hook_event_name\":\"SessionStart\",\"session_id\":",
    ).concat(&session).concat("}")
}

/// What a hook after a tool call is told, from the JSON texts of its values.
pub open spec fn post_tool_text(
    tool_name: Seq<char>,
    tool_input: Seq<char>,
    content: Seq<char>,
    truncated: bool,
    is_error: bool,
) -> Seq<char> {
    "{\"hook_event_name\":\"PostToolUse\",\"tool_input\":"@ + tool_input + ",\"tool_name\":"@
        + tool_name + ",\"tool_response\":{\"content\":"@ + content + ",\"content_truncated\":"@
        + text::bool_view(truncated) + ",\"is_error\":"@ + text::bool_view(is_error) + "}}"@
}

/// What a hook after a tool call is told: the beginning of the result, of at most
/// [`POST_CONTENT_CAP`] bytes, and whether the result has more. `tool_input` is the JSON text of the input, if
/// it is known.
pub fn post_tool_payload(
    tool_name: &str,
    tool_input: Option<String>,
    content: &str,
    is_error: bool,
) -> (r: String)
    ensures
        exists|shown: Seq<char>| #[trigger]
            text::is_capped(shown, content@, POST_CONTENT_CAP as nat) && r@ == post_tool_text(
                json::quoted(tool_name@),
                json::or_null(tool_input.deep_view()),
                json::quoted(shown),
                text::byte_len_view(content@) > POST_CONTENT_CAP,
                is_error,
            ),
{
    let name = json::quote(tool_name);
    let input = json::text_or_null(tool_input);
    let kept = text::cap_bytes(content, POST_CONTENT_CAP);
    let shown = json::quote(kept);
    proof {
        assert(text::is_capped(kept@, content@, POST_CONTENT_CAP as nat));
    }
    let truncated = text::byte_len(content) > POST_CONTENT_CAP;
    "{\"hook_event_name\":\"PostToolUse\",\"tool_input\":".to_owned().concat(&input).concat(
        ",\"tool_name\":",
    ).concat(&name).concat(",\"tool_response\":{\"content\":").concat(&shown).concat(
        ",\"content_truncated\":",
    ).concat(text::bool_str(truncated)).concat(",\"is_error\":").concat(
        text::bool_str(is_error),
    ).concat("}}")
}

/// What a hook at the end of a turn is told, from the JSON text of the reason.
pub open spec fn stop_text(stop_reason: Seq<char>, turn_count: u32) -> Seq<char> {
    "{\"hook_event_name\":\"Stop\",\"stop_reason\":"@ + stop_reason + ",\"turn_count\":"@
        + text::decimal_view(turn_count as nat) + "}"@
}

/// What a hook at the end of a turn is told.
pub fn stop_payload(stop_reason: &str, turn_count: u32) -> (r: String)
    ensures
        r@ == stop_text(json::quoted(stop_reason@), turn_count),
{
    let reason = json::quote(stop_reason);
    let turns = text::decimal(turn_count as u64);
    "{\"hook_event_name\":\"Stop\",\"stop_reason\":".to_owned().concat(&reason).concat(
        ",\"turn_count\":",
    ).concat(&turns).concat("}")
}

/// Hooks fail open: only exit code 2 and a printed decision to deny refuse a call.
pub proof fn law_hooks_fail_open(
    command: Seq<char>,
    out: RunOutput,
    decision: Option<Seq<char>>,
    reason: Option<Seq<char>>,
)
    ensures
        denial(command, out, decision, reason) is Some <==> !out.timed_out && (out.exit_code
            == Some(2i32) || decision == Some("deny"@)),
{
}

/// Asking hook by hook gives what [`gated`] says: where no further hook is asked the call is
/// allowed, and else the next hook asked decides, or leaves it to those after it.
pub proof fn law_gate_steps_to_its_result(
    hooks: Seq<HookEntryView>,
    tool: Seq<char>,
    outputs: spec_fn(int) -> RunOutput,
    from: int,
)
    requires
        0 <= from <= hooks.len(),
    ensures
        match next_gate(hooks, tool, from) {
            None => gated(hooks, tool, outputs, from) is None,
            Some(i) => from <= i < hooks.len() && gates(hooks[i], tool) && gated(
                hooks,
                tool,
                outputs,
                from,
            ) == match verdict(hooks[i].command, outputs(i)) {
                Some(reason) => Some(reason),
                None => gated(hooks, tool, outputs, i + 1),
            },
        },
    decreases hooks.len() - from,
{
    if from < hooks.len() && !gates(hooks[from], tool) {
        law_gate_steps_to_its_result(hooks, tool, outputs, from + 1);
    }
}

/// A call is refused for the reason of the first hook that is asked and refuses, and allowed if
/// there is none.
pub proof fn law_first_denial_decides(
    hooks: Seq<HookEntryView>,
    tool: Seq<char>,
    outputs: spec_fn(int) -> RunOutput,
    from: int,
)
    requires
        0 <= from <= hooks.len(),
    ensures
        match gated(hooks, tool, outputs, from) {
            Some(reason) => exists|i: int|
                from <= i < hooks.len() && #[trigger] gates(hooks[i], tool) && verdict(
                    hooks[i].command,
                    outputs(i),
                ) == Some(reason) && forall|j: int|
                    from <= j < i && #[trigger] gates(hooks[j], tool) ==> verdict(
                        hooks[j].command,
                        outputs(j),
                    ) is None,
            None => forall|j: int|
                from <= j < hooks.len() && #[trigger] gates(hooks[j], tool) ==> verdict(
                    hooks[j].command,
                    outputs(j),
                ) is None,
        },
    decreases hooks.len() - from,
{
    if from < hooks.len() {
        law_first_denial_decides(hooks, tool, outputs, from + 1);
        if gates(hooks[from], tool) && verdict(hooks[from].command, outputs(from)) is Some {
            assert(gates(hooks[from], tool));
        } else if gated(hooks, tool, outputs, from) is Some {
            let reason = gated(hooks, tool, outputs, from)->0;
            let i = choose|i: int|
                from + 1 <= i < hooks.len() && #[trigger] gates(hooks[i], tool) && verdict(
                    hooks[i].command,
                    outputs(i),
                ) == Some(reason) && forall|j: int|
                    from + 1 <= j < i && #[trigger] gates(hooks[j], tool) ==> verdict(
                        hooks[j].command,
                        outputs(j),
                    ) is None;
            assert(gates(hooks[i], tool));
        }
    }
}

/// A hook without a matcher is for every tool, one whose matcher ends in an asterisk for the tools
/// that begin with what stands before it, and any other for the one tool of that name.
pub proof fn law_matchers_choose_tools(h: HookEntryView, start: Seq<char>, tool: Seq<char>)
    ensures
        h.matcher is None ==> h.matches(tool),
        h.matcher == Some(start + "*"@) ==> (h.matches(tool) <==> text::has_prefix(tool, start)),
        h.matcher == Some(start) && (start.len() == 0 || start.last() != '*') ==> (h.matches(tool)
            <==> tool == start),
{
    reveal_strlit("*");
    let m = start + "*"@;
    assert(m.skip(m.len() - 1) =~= "*"@);
    assert(m.take(m.len() - 1) =~= start);
    if start.len() > 0 && start.last() != '*' {
        assert(start.skip(start.len() - 1)[0] == start.last());
    }
}

/// A hook hears just the events of its own kind, and of these the ones that are of no tool or of a
/// tool it is for; before a tool call those are asked that listen to just that.
pub proof fn law_hooks_hear_their_own_events(
    h: HookEntryView,
    kind: HookEventKind,
    tool: Seq<char>,
)
    ensures
        h.listens_to(kind, None) <==> h.event == kind,
        h.listens_to(kind, Some(tool)) <==> h.event == kind && h.matches(tool),
        gates(h, tool) <==> h.event is PreToolUse && h.matches(tool),
{
}

/// The next hook to be asked is the first that is asked at all from there on.
pub proof fn law_the_next_gate_is_the_first(hooks: Seq<HookEntryView>, tool: Seq<char>, from: int)
    requires
        0 <= from <= hooks.len(),
    ensures
        match next_gate(hooks, tool, from) {
            Some(i) => from <= i < hooks.len() && hooks[i].event is PreToolUse && hooks[i].matches(
                tool,
            ) && forall|j: int|
                from <= j < i ==> !((#[trigger] hooks[j]).event is PreToolUse && hooks[j].matches(
                    tool,
                )),
            None => forall|j: int|
                from <= j < hooks.len() ==> !((#[trigger] hooks[j]).event is PreToolUse
                    && hooks[j].matches(tool)),
        },
    decreases hooks.len() - from,
{
    if from < hooks.len() && !gates(hooks[from], tool) {
        law_the_next_gate_is_the_first(hooks, tool, from + 1);
    }
}

/// A command below the home directory is expanded to the full path if the directory is known, and
/// every other command stays as it is.
pub proof fn law_home_is_filled_in(command: Seq<char>, home: Seq<char>, rest: Seq<char>)
    ensures
        expanded("~/"@ + rest, Some(home)) == home + "/"@ + rest,
        expanded(command, None) == command,
        command.len() == 0 || command[0] != '~' ==> expanded(command, Some(home)) == command,
        command.len() >= 2 && command[1] != '/' ==> expanded(command, Some(home)) == command,
{
    reveal_strlit("~/");
    let c = "~/"@ + rest;
    assert(c.take(2) =~= "~/"@);
    assert(c.skip(2) =~= rest);
    if text::has_prefix(command, "~/"@) {
        assert(command.take(2)[0] == command[0]);
        assert(command.take(2)[1] == command[1]);
    }
}

/// An entry is a hook exactly if its event is one of the four and its command is not blank. The hook
/// has what the entry states, and half a minute to run where the entry states no time.
pub proof fn law_entries_become_hooks(e: HookEntryConfig, home: Option<Seq<char>>)
    ensures
        hook_of(e, home) is Some <==> (e.event@ == "SessionStart"@ || e.event@ == "PreToolUse"@
            || e.event@ == "PostToolUse"@ || e.event@ == "Stop"@) && exists|i: int|
            0 <= i < e.command@.len() && !text::is_white_space(#[trigger] e.command@[i]),
        hook_of(e, home) matches Some(h) ==> {
            &&& h.event.name_view() == e.event@
            &&& h.matcher == e.matcher.deep_view()
            &&& h.command == expanded(e.command@, home)
            &&& e.timeout_ms is Some ==> h.timeout_ms == e.timeout_ms->0
            &&& e.timeout_ms is None ==> h.timeout_ms == 30_000
        },
        skip_of(e) == Some(SkipReason::UnknownEvent) <==> e.event@ != "SessionStart"@ && e.event@
            != "PreToolUse"@ && e.event@ != "PostToolUse"@ && e.event@ != "Stop"@,
        skip_of(e) is None <==> hook_of(e, home) is Some,
{
    let s = e.command@;
    let p = text::blank();
    text::law_stripping_takes_one_end(s, p);
    let t = text::strip_front(s, p);
    text::law_stripping_takes_one_end(t, p);
    if text::trim_view(s).len() == 0 {
        assert forall|i: int| 0 <= i < s.len() implies text::is_white_space(#[trigger] s[i]) by {
            let k = s.len() - t.len();
            if i >= k {
                assert(p(t[i - k]));
                assert(t[i - k] == s[i]);
            } else {
                assert(p(s[i]));
            }
        }
    } else {
        let k = s.len() - t.len();
        assert(t[0] == s[k]);
        assert(!text::is_white_space(s[k]));
    }
}

/// Entries are taken one by one and in order, and every skipped one is listed at its place.
pub proof fn law_entries_are_taken_one_by_one(
    entries: Seq<HookEntryConfig>,
    e: HookEntryConfig,
    home: Option<Seq<char>>,
)
    requires
        entries.len() < usize::MAX,
    ensures
        hooks_of(Seq::empty(), home).len() == 0,
        hook_of(e, home) is Some ==> hooks_of(entries.push(e), home) == hooks_of(entries, home).push(
            hook_of(e, home)->0,
        ),
        hook_of(e, home) is None ==> hooks_of(entries.push(e), home) == hooks_of(entries, home),
        skips_of(Seq::empty()).len() == 0,
        skip_of(e) is None ==> skips_of(entries.push(e)) == skips_of(entries),
        skip_of(e) is Some ==> {
            let listed = skips_of(entries.push(e));
            &&& listed.len() == skips_of(entries).len() + 1
            &&& listed.drop_last() == skips_of(entries)
            &&& listed.last().0 == entries.len()
            &&& listed.last().1 == skip_of(e)->0
        },
{
    assert(entries.push(e).drop_last() =~= entries);
    if skip_of(e) is Some {
        assert(skips_of(entries.push(e)).drop_last() =~= skips_of(entries));
    }
}

/// A refusal names the command of the hook, and gives what the hook wrote to its error output, at
/// most the first 512 characters of it, if the hook exited with code 2, and else the reason that it
/// printed.
pub proof fn law_refusals_give_their_reason(
    command: Seq<char>,
    out: RunOutput,
    decision: Option<Seq<char>>,
    reason: Option<Seq<char>>,
)
    requires
        !out.timed_out,
    ensures
        ({
            let why = denial(command, out, decision, reason);
            let said = text::trim_view(out.stderr@);
            let named = "denied by hook `"@ + command;
            &&& out.exit_code == Some(2i32) && said.len() == 0 ==> why == Some(
                named + "` (exit 2)"@,
            )
            &&& out.exit_code == Some(2i32) && 0 < said.len() <= 512 ==> why == Some(
                named + "`: "@ + said,
            )
            &&& out.exit_code == Some(2i32) && said.len() > 512 ==> why == Some(
                named + "`: "@ + said.take(512),
            )
            &&& out.exit_code != Some(2i32) && decision == Some("deny"@) && reason is Some ==> why
                == Some(named + "`: "@ + reason->0)
            &&& out.exit_code != Some(2i32) && decision == Some("deny"@) && reason is None ==> why
                == Some(named + "`: "@ + "no reason given"@)
        }),
{
}

/// The decision and the reason of a hook are the members of those names of the object that it
/// printed, whatever white space stands around it.
pub proof fn law_printed_decisions_count(
    command: Seq<char>,
    out: RunOutput,
    before: Seq<char>,
    printed: Seq<char>,
    after: Seq<char>,
)
    requires
        out.stdout@ == before + printed + after,
        forall|i: int| 0 <= i < before.len() ==> text::is_white_space(#[trigger] before[i]),
        forall|i: int| 0 <= i < after.len() ==> text::is_white_space(#[trigger] after[i]),
        printed.len() > 0 ==> !text::is_white_space(printed[0]) && !text::is_white_space(
            printed.last(),
        ),
    ensures
        verdict(command, out) is Some <==> !out.timed_out && (out.exit_code == Some(2i32)
            || json::string_at(printed, "decision"@) == Some("deny"@)),
        !out.timed_out && out.exit_code != Some(2i32) && json::string_at(printed, "decision"@)
            == Some("deny"@) && json::string_at(printed, "reason"@) is Some ==> verdict(command, out)
            == Some("denied by hook `"@ + command + "`: "@ + json::string_at(printed, "reason"@)->0),
{
    text::law_trimming_finds_the_core(before, printed, after);
}

/// A member of a JSON object in its text.
pub open spec fn member(name: Seq<char>, value: Seq<char>) -> Seq<char> {
    seq!['"'] + name + seq!['"', ':'] + value
}

/// Every hook is told the name of its event and the values of it, each under its name.
#[verifier::rlimit(60)]
#[verifier::spinoff_prover]
pub proof fn law_hooks_are_told_named_values(
    tool_name: Seq<char>,
    tool_input: Seq<char>,
    session_id: Seq<char>,
    cwd: Seq<char>,
    stop_reason: Seq<char>,
    turns: u32,
)
    ensures
        pre_tool_text(tool_name, tool_input) == seq!['{'] + member(
            "hook_event_name"@,
            seq!['"'] + "PreToolUse"@ + seq!['"'],
        ) + seq![','] + member("tool_input"@, tool_input) + seq![','] + member(
            "tool_name"@,
            tool_name,
        ) + seq!['}'],
        session_start_text(session_id, cwd) == seq!['{'] + member("cwd"@, cwd) + seq![',']
            + member("hook_event_name"@, seq!['"'] + "SessionStart"@ + seq!['"']) + seq![',']
            + member("session_id"@, session_id) + seq!['}'],
        stop_text(stop_reason, turns) == seq!['{'] + member(
            "hook_event_name"@,
            seq!['"'] + "Stop"@ + seq!['"'],
        ) + seq![','] + member("stop_reason"@, stop_reason) + seq![','] + member(
            "turn_count"@,
            text::decimal_view(turns as nat),
        ) + seq!['}'],
{
    reveal_strlit("{\"hook_event_name\":\"PreToolUse\",\"tool_input\":");
    reveal_strlit(",\"tool_name\":");
    reveal_strlit("}");
    reveal_strlit("{\"cwd\":");
    reveal_strlit(",\"hook_event_name\":\"SessionStart\",\"session_id\":");
    reveal_strlit("{\"hook_event_name\":\"Stop\",\"stop_reason\":");
    reveal_strlit(",\"turn_count\":");
    reveal_strlit("hook_event_name");
    reveal_strlit("PreToolUse");
    reveal_strlit("SessionStart");
    reveal_strlit("Stop");
    reveal_strlit("tool_input");
    reveal_strlit("tool_name");
    reveal_strlit("cwd");
    reveal_strlit("session_id");
    reveal_strlit("stop_reason");
    reveal_strlit("turn_count");
    assert(pre_tool_text(tool_name, tool_input) =~= seq!['{'] + member(
        "hook_event_name"@,
        seq!['"'] + "PreToolUse"@ + seq!['"'],
    ) + seq![','] + member("tool_input"@, tool_input) + seq![','] + member("tool_name"@, tool_name)
        + seq!['}']);
    assert(session_start_text(session_id, cwd) =~= seq!['{'] + member("cwd"@, cwd) + seq![',']
        + member("hook_event_name"@, seq!['"'] + "SessionStart"@ + seq!['"']) + seq![','] + member(
        "session_id"@,
        session_id,
    ) + seq!['}']);
    assert(stop_text(stop_reason, turns) =~= seq!['{'] + member(
        "hook_event_name"@,
        seq!['"'] + "Stop"@ + seq!['"'],
    ) + seq![','] + member("stop_reason"@, stop_reason) + seq![','] + member(
        "turn_count"@,
        text::decimal_view(turns as nat),
    ) + seq!['}']);
}

/// After a tool call a hook is told the call as before it, and the result, each value under its
/// name.
#[verifier::rlimit(60)]
#[verifier::spinoff_prover]
pub proof fn law_observers_are_told_the_result(
    tool_name: Seq<char>,
    tool_input: Seq<char>,
    content: Seq<char>,
    truncated: bool,
    is_error: bool,
)
    ensures
        post_tool_text(tool_name, tool_input, content, truncated, is_error) == seq!['{'] + member(
            "hook_event_name"@,
            seq!['"'] + "PostToolUse"@ + seq!['"'],
        ) + seq![','] + member("tool_input"@, tool_input) + seq![','] + member(
            "tool_name"@,
            tool_name,
        ) + seq![','] + member(
            "tool_response"@,
            seq!['{'] + member("content"@, content) + seq![','] + member(
                "content_truncated"@,
                text::bool_view(truncated),
            ) + seq![','] + member("is_error"@, text::bool_view(is_error)) + seq!['}'],
        ) + seq!['}'],
{
    reveal_strlit("{\"hook_event_name\":\"PostToolUse\",\"tool_input\":");
    reveal_strlit(",\"tool_name\":");
    reveal_strlit(",\"tool_response\":{\"content\":");
    reveal_strlit(",\"content_truncated\":");
    reveal_strlit(",\"is_error\":");
    reveal_strlit("}}");
    reveal_strlit("hook_event_name");
    reveal_strlit("PostToolUse");
    reveal_strlit("tool_input");
    reveal_strlit("tool_name");
    reveal_strlit("tool_response");
    reveal_strlit("content");
    reveal_strlit("content_truncated");
    reveal_strlit("is_error");
    assert(post_tool_text(tool_name, tool_input, content, truncated, is_error) =~= seq!['{']
        + member("hook_event_name"@, seq!['"'] + "PostToolUse"@ + seq!['"']) + seq![','] + member(
        "tool_input"@,
        tool_input,
    ) + seq![','] + member("tool_name"@, tool_name) + seq![','] + member(
        "tool_response"@,
        seq!['{'] + member("content"@, content) + seq![','] + member(
            "content_truncated"@,
            text::bool_view(truncated),
        ) + seq![','] + member("is_error"@, text::bool_view(is_error)) + seq!['}'],
    ) + seq!['}']);
}

/// There are hooks exactly if the configuration is enabled and has an entry that is one; they are
/// those of its entries. Only an enabled configuration has skipped entries.
pub proof fn law_enabled_configurations_have_hooks(
    cfg: &HooksConfig,
    home: Option<&str>,
    r: Option<HookEngine>,
    skipped: Vec<(usize, SkipReason)>,
)
    requires
        call_ensures(HookEngine::from_config, (cfg, home), r),
        call_ensures(skipped_entries, (cfg,), skipped),
    ensures
        r is Some <==> cfg.enabled && hooks_of(cfg.entries@, tool_view(home)).len() > 0,
        r matches Some(engine) ==> engine@ == hooks_of(cfg.entries@, tool_view(home)),
        !cfg.enabled ==> skipped@.len() == 0,
        cfg.enabled ==> skipped@ == skips_of(cfg.entries@),
        home is Some ==> tool_view(home) == Some(home->0@),
        home is None ==> tool_view(home) is None,
{
}

/// The observers of an event are the hooks that listen to it, in order, and there is a listener
/// exactly if a hook is attached to that event.
pub proof fn law_observers_are_those_that_listen(
    engine: &HookEngine,
    kind: HookEventKind,
    tool: Option<&str>,
    observers: Vec<&HookEntry>,
    listens: bool,
    h: HookEntryView,
)
    requires
        call_ensures(HookEngine::observers, (engine, kind, tool), observers),
        call_ensures(HookEngine::listens, (engine, kind), listens),
    ensures
        observers.deep_view().contains(h) <==> engine@.contains(h) && h.event == kind && (tool
            is None || h.matches(tool->0@)),
        listens <==> exists|i: int| 0 <= i < engine@.len() && (#[trigger] engine@[i]).event == kind,
{
    seqs::lemma_filter_contains(engine@, |h: HookEntryView| h.listens_to(kind, tool_view(tool)));
}

/// Before a tool call the first hook is run that is asked, after each hook that does not refuse the
/// next one, and the call is allowed when none is left; a refusal ends it with the reason.
pub proof fn law_hooks_are_asked_in_turn(
    engine: &HookEngine,
    tool: &str,
    first: GateStep,
    index: usize,
    out: &RunOutput,
    after: GateStep,
)
    requires
        call_ensures(HookEngine::gate_begin, (engine, tool), first),
        index < engine@.len(),
        call_ensures(HookEngine::gate_continue, (engine, tool, index, out), after),
    ensures
        first is Run ==> first->index < engine@.len() && gates(engine@[first->index as int], tool@)
            && forall|j: int|
            0 <= j < first->index ==> !gates(#[trigger] engine@[j], tool@),
        first is Finished ==> first->deny is None && forall|j: int|
            0 <= j < engine@.len() ==> !gates(#[trigger] engine@[j], tool@),
        verdict(engine@[index as int].command, *out) is Some ==> after is Finished
            && after->deny.deep_view() == verdict(engine@[index as int].command, *out),
        verdict(engine@[index as int].command, *out) is None && after is Run ==> index
            < after->index < engine@.len() && gates(engine@[after->index as int], tool@)
            && forall|j: int|
            index < j < after->index ==> !gates(#[trigger] engine@[j], tool@),
        verdict(engine@[index as int].command, *out) is None && after is Finished
            ==> after->deny is None && forall|j: int|
            index < j < engine@.len() ==> !gates(#[trigger] engine@[j], tool@),
{
    law_the_next_gate_is_the_first(engine@, tool@, 0);
    law_the_next_gate_is_the_first(engine@, tool@, index + 1);
}

/// The output of a hook is kept up to a limit, and one that ran too long or could not be run said
/// nothing.
pub proof fn law_outputs_are_kept_up_to_a_limit(
    exit_code: Option<i32>,
    stdout: &[u8],
    stderr: &[u8],
    ended: RunOutput,
    failed: RunOutput,
    expired: RunOutput,
    command: Seq<char>,
)
    requires
        call_ensures(RunOutput::ended, (exit_code, stdout, stderr), ended),
        call_ensures(RunOutput::failed, (), failed),
        call_ensures(RunOutput::expired, (), expired),
    ensures
        ended.exit_code == exit_code && !ended.timed_out,
        text::byte_len_view(ended.stdout@) <= 16384,
        text::byte_len_view(ended.stderr@) <= 16384,
        text::has_prefix(lossy_text(stdout@), ended.stdout@),
        text::has_prefix(lossy_text(stderr@), ended.stderr@),
        text::byte_len_view(lossy_text(stdout@)) <= 16384 ==> ended.stdout@ == lossy_text(stdout@),
        text::byte_len_view(lossy_text(stderr@)) <= 16384 ==> ended.stderr@ == lossy_text(stderr@),
        expired.timed_out && expired.stdout@.len() == 0 && expired.stderr@.len() == 0,
        !failed.timed_out && failed.exit_code is None && failed.stdout@.len() == 0
            && failed.stderr@.len() == 0,
        verdict(command, expired) is None,
{
    text::law_capping_keeps_what_fits(ended.stdout@, lossy_text(stdout@), OUTPUT_CAP as nat);
    text::law_capping_keeps_what_fits(ended.stderr@, lossy_text(stderr@), OUTPUT_CAP as nat);
}

/// An observer is shown a beginning of the result of at most 8192 bytes, the whole result if it is
/// no longer, and is told whether there is more and whether it is an error.
pub proof fn law_observers_see_the_beginning(
    tool: &str,
    input: Option<String>,
    content: &str,
    is_error: bool,
    r: String,
)
    requires
        call_ensures(post_tool_payload, (tool, input, content, is_error), r),
    ensures
        exists|shown: Seq<char>|
            {
                &&& #[trigger] text::has_prefix(content@, shown)
                &&& text::byte_len_view(shown) <= 8192
                &&& text::byte_len_view(content@) <= 8192 ==> shown == content@
                &&& r@ == post_tool_text(
                    json::quoted(tool@),
                    json::or_null(input.deep_view()),
                    json::quoted(shown),
                    text::byte_len_view(content@) > 8192,
                    is_error,
                )
            },
{
    let shown = choose|shown: Seq<char>| #[trigger]
        text::is_capped(shown, content@, POST_CONTENT_CAP as nat) && r@ == post_tool_text(
            json::quoted(tool@),
            json::or_null(input.deep_view()),
            json::quoted(shown),
            text::byte_len_view(content@) > POST_CONTENT_CAP,
            is_error,
        );
    text::law_capping_keeps_what_fits(shown, content@, POST_CONTENT_CAP as nat);
    assert(text::has_prefix(content@, shown));
}

/// A hook is given the search path, the home directory, the user, the language and the directory of
/// temporary files, and no other variable.
pub proof fn law_hooks_are_given_five_variables(r: Vec<&'static str>, name: Seq<char>)
    requires
        call_ensures(passed_variables, (), r),
    ensures
        r.deep_view().contains(name) <==> name == "PATH"@ || name == "HOME"@ || name == "USER"@
            || name == "LANG"@ || name == "TMPDIR"@,
        r@.len() == 5,
{
    let v = r.deep_view();
    assert(v[0] == "PATH"@ && v[1] == "HOME"@ && v[2] == "USER"@ && v[3] == "LANG"@ && v[4]
        == "TMPDIR"@);
    assert(v.len() == r@.len());
}

} // verus!
