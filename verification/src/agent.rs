//! Messages, usage accounting and tool descriptions of the agent loop.
use vstd::prelude::*;

verus! {

/// What a tool offers to the model.
#[derive(Debug, Clone, PartialEq)]
pub struct ToolSpec {
    pub name: String,
    pub description: String,
    /// The parameter schema as JSON text.
    pub input_schema: String,
    /// When to use the tool.
    pub when: Option<String>,
    pub policy: ToolPolicy,
}

/// The class of effects that a tool has on the world.
#[derive(Debug, Clone, Copy, PartialEq, Eq, Structural)]
pub enum SideEffects {
    /// No observable change.
    ReadOnly,
    /// Changes that can be undone.
    Mutating,
    /// Changes that cannot be undone.
    Destructive,
    /// Reaches the network.
    External,
}

/// Whether a tool call needs approval.
#[derive(Debug, Clone, Copy, PartialEq, Eq, Structural)]
pub enum PermissionLevel {
    Allow,
    AskOnce,
    Ask,
    Deny,
}

/// What happens after a failed tool call.
#[derive(Debug, Clone, Copy, PartialEq, Eq, Structural)]
pub enum RetryPolicy {
    ModelDecides,
    Never,
}

/// The rules a tool call is subject to.
#[derive(Debug, Clone, PartialEq)]
pub struct ToolPolicy {
    pub side_effects: SideEffects,
    pub permission: PermissionLevel,
    pub retry: RetryPolicy,
    pub required_aws_capability: Option<String>,
    pub idempotent: bool,
}

impl Default for ToolPolicy {
    fn default() -> (r: Self)
        ensures
            r.side_effects is ReadOnly,
            r.permission is Allow,
            r.retry is ModelDecides,
            r.required_aws_capability is None,
            r.idempotent,
    {
        ToolPolicy {
            side_effects: SideEffects::ReadOnly,
            permission: PermissionLevel::Allow,
            retry: RetryPolicy::ModelDecides,
            required_aws_capability: None,
            idempotent: true,
        }
    }
}

/// Why a turn ended.
#[derive(Debug, Clone, Copy, PartialEq, Eq, Structural)]
pub enum StopReason {
    EndTurn,
    ToolUse,
    MaxTokens,
    Error,
    Aborted,
    BudgetCap,
}

/// Part of an assistant message.
#[derive(Debug, Clone, PartialEq)]
pub enum ContentBlock {
    Text { text: String },
    /// A tool call; `input` is JSON text.
    ToolUse { id: String, name: String, input: String },
}

/// A message of the assistant.
#[derive(Debug, Clone, PartialEq)]
pub struct AssistantMessage {
    pub content: Vec<ContentBlock>,
    pub stop_reason: StopReason,
    pub usage: Option<Usage>,
}

/// Tokens that a provider reported.
#[derive(Debug, Clone, Copy, PartialEq, Eq, Structural)]
pub struct Usage {
    pub input_tokens: u64,
    pub output_tokens: u64,
    pub cache_read_input_tokens: Option<u64>,
    pub cache_creation_input_tokens: Option<u64>,
    pub cache_creation_5m_input_tokens: Option<u64>,
    pub cache_creation_1h_input_tokens: Option<u64>,
    pub reasoning_tokens: Option<u64>,
}

impl Default for Usage {
    fn default() -> (r: Self)
        ensures
            r == Usage::zero(),
    {
        Usage {
            input_tokens: 0,
            output_tokens: 0,
            cache_read_input_tokens: None,
            cache_creation_input_tokens: None,
            cache_creation_5m_input_tokens: None,
            cache_creation_1h_input_tokens: None,
            reasoning_tokens: None,
        }
    }
}

/// `n`, or the greatest `u32` if `n` is greater.
pub open spec fn clamp32(n: nat) -> u32 {
    if n <= u32::MAX {
        n as u32
    } else {
        u32::MAX
    }
}

/// `n`, or the greatest `u64` if `n` is greater.
pub open spec fn clamp64(n: nat) -> u64 {
    if n <= u64::MAX {
        n as u64
    } else {
        u64::MAX
    }
}

/// The count that may be absent, absent counting as none.
pub open spec fn tokens(n: Option<u64>) -> nat {
    match n {
        Some(n) => n as nat,
        None => 0,
    }
}

/// The sum of two counts that may be absent; absent if both are.
pub open spec fn tokens_plus(a: Option<u64>, b: Option<u64>) -> Option<u64> {
    if a is None && b is None {
        None
    } else {
        Some(clamp64(tokens(a) + tokens(b)))
    }
}

fn add_tokens(a: Option<u64>, b: Option<u64>) -> (r: Option<u64>)
    ensures
        r == tokens_plus(a, b),
{
    match (a, b) {
        (Some(x), Some(y)) => Some(x.saturating_add(y)),
        (Some(x), None) => Some(x),
        (None, y) => y,
    }
}

impl Usage {
    /// No tokens at all, and no optional count.
    pub open spec fn zero() -> Usage {
        Usage {
            input_tokens: 0,
            output_tokens: 0,
            cache_read_input_tokens: None,
            cache_creation_input_tokens: None,
            cache_creation_5m_input_tokens: None,
            cache_creation_1h_input_tokens: None,
            reasoning_tokens: None,
        }
    }

    /// The sum of two usages, count by count.
    pub open spec fn plus(self, other: Usage) -> Usage {
        Usage {
            input_tokens: clamp64((self.input_tokens + other.input_tokens) as nat),
            output_tokens: clamp64((self.output_tokens + other.output_tokens) as nat),
            cache_read_input_tokens: tokens_plus(
                self.cache_read_input_tokens,
                other.cache_read_input_tokens,
            ),
            cache_creation_input_tokens: tokens_plus(
                self.cache_creation_input_tokens,
                other.cache_creation_input_tokens,
            ),
            cache_creation_5m_input_tokens: tokens_plus(
                self.cache_creation_5m_input_tokens,
                other.cache_creation_5m_input_tokens,
            ),
            cache_creation_1h_input_tokens: tokens_plus(
                self.cache_creation_1h_input_tokens,
                other.cache_creation_1h_input_tokens,
            ),
            reasoning_tokens: tokens_plus(self.reasoning_tokens, other.reasoning_tokens),
        }
    }

    /// The sum of two usages. Each count stops at the greatest `u64`.
    pub fn combine(self, other: Usage) -> (r: Usage)
        ensures
            r == self.plus(other),
    {
        Usage {
            input_tokens: self.input_tokens.saturating_add(other.input_tokens),
            output_tokens: self.output_tokens.saturating_add(other.output_tokens),
            cache_read_input_tokens: add_tokens(
                self.cache_read_input_tokens,
                other.cache_read_input_tokens,
            ),
            cache_creation_input_tokens: add_tokens(
                self.cache_creation_input_tokens,
                other.cache_creation_input_tokens,
            ),
            cache_creation_5m_input_tokens: add_tokens(
                self.cache_creation_5m_input_tokens,
                other.cache_creation_5m_input_tokens,
            ),
            cache_creation_1h_input_tokens: add_tokens(
                self.cache_creation_1h_input_tokens,
                other.cache_creation_1h_input_tokens,
            ),
            reasoning_tokens: add_tokens(self.reasoning_tokens, other.reasoning_tokens),
        }
    }

    /// Input, cache reads and cache writes together, as if the three were disjoint.
    pub open spec fn disjoint_prompt(self) -> u64 {
        clamp64(
            self.input_tokens as nat + tokens(self.cache_read_input_tokens) + tokens(
                self.cache_creation_input_tokens,
            ),
        )
    }
}

/// How a provider's counts relate to each other. `None` means that it is not known.
#[derive(Debug, Clone, Copy, PartialEq, Eq, Structural)]
pub struct UsageSemantics {
    /// Whether `input_tokens` holds the cache reads.
    pub cache_read_in_input: Option<bool>,
    /// Whether `input_tokens` holds the cache writes.
    pub cache_creation_in_input: Option<bool>,
    /// Whether `output_tokens` holds the reasoning tokens.
    pub reasoning_in_output: Option<bool>,
}

impl UsageSemantics {
    /// Cache reads and writes are part of the input.
    pub fn openai_style() -> (r: Self)
        ensures
            r == (UsageSemantics {
                cache_read_in_input: Some(true),
                cache_creation_in_input: Some(true),
                reasoning_in_output: Some(true),
            }),
    {
        UsageSemantics {
            cache_read_in_input: Some(true),
            cache_creation_in_input: Some(true),
            reasoning_in_output: Some(true),
        }
    }

    /// Input, cache reads and cache writes are disjoint.
    pub fn anthropic_style() -> (r: Self)
        ensures
            r == (UsageSemantics {
                cache_read_in_input: Some(false),
                cache_creation_in_input: Some(false),
                reasoning_in_output: Some(true),
            }),
    {
        UsageSemantics {
            cache_read_in_input: Some(false),
            cache_creation_in_input: Some(false),
            reasoning_in_output: Some(true),
        }
    }

    /// The size of the prompt that `u` reports, where it is known.
    pub open spec fn prompt(self, u: Usage) -> Option<u64> {
        match (self.cache_read_in_input, self.cache_creation_in_input) {
            (Some(reads), Some(writes)) => Some(
                clamp64(
                    u.input_tokens as nat + (if reads {
                        0
                    } else {
                        tokens(u.cache_read_input_tokens)
                    }) + (if writes {
                        0
                    } else {
                        tokens(u.cache_creation_input_tokens)
                    }),
                ),
            ),
            _ => None,
        }
    }

    /// The size of the prompt that `u` reports, where it is known: the input, and the cache reads
    /// and writes as far as the input does not hold them.
    pub fn prompt_total(&self, u: &Usage) -> (r: Option<u64>)
        ensures
            r == self.prompt(*u),
    {
        match (self.cache_read_in_input, self.cache_creation_in_input) {
            (Some(reads), Some(writes)) => {
                let mut total: u64 = u.input_tokens;
                if !reads {
                    total = total.saturating_add(u.cache_read_input_tokens.unwrap_or(0));
                }
                if !writes {
                    total = total.saturating_add(u.cache_creation_input_tokens.unwrap_or(0));
                }
                Some(total)
            },
            _ => None,
        }
    }
}

/// The value of a count that may be absent, absent being zero.
pub open spec fn value_of(n: Option<u64>) -> nat {
    if n is Some {
        n->0 as nat
    } else {
        0
    }
}

/// How many counts a usage has.
pub const COUNTS: usize = 7;

/// The counts of a usage, numbered in the order in which it lists them. An absent one is zero.
pub open spec fn count(u: Usage, k: int) -> nat {
    if k == 0 {
        u.input_tokens as nat
    } else if k == 1 {
        u.output_tokens as nat
    } else if k == 2 {
        value_of(u.cache_read_input_tokens)
    } else if k == 3 {
        value_of(u.cache_creation_input_tokens)
    } else if k == 4 {
        value_of(u.cache_creation_5m_input_tokens)
    } else if k == 5 {
        value_of(u.cache_creation_1h_input_tokens)
    } else {
        value_of(u.reasoning_tokens)
    }
}

/// Whether a usage reports the count with a number.
pub open spec fn reports(u: Usage, k: int) -> bool {
    if k == 2 {
        u.cache_read_input_tokens is Some
    } else if k == 3 {
        u.cache_creation_input_tokens is Some
    } else if k == 4 {
        u.cache_creation_5m_input_tokens is Some
    } else if k == 5 {
        u.cache_creation_1h_input_tokens is Some
    } else if k == 6 {
        u.reasoning_tokens is Some
    } else {
        true
    }
}

/// Usages are the same if their counts are.
pub proof fn lemma_counts_decide(a: Usage, b: Usage)
    requires
        forall|k: int|
            0 <= k < COUNTS ==> #[trigger] count(a, k) == count(b, k) && reports(a, k) == reports(
                b,
                k,
            ),
    ensures
        a == b,
{
    assert(count(a, 0) == count(b, 0));
    assert(count(a, 1) == count(b, 1));
    assert(count(a, 2) == count(b, 2));
    assert(count(a, 3) == count(b, 3));
    assert(count(a, 4) == count(b, 4));
    assert(count(a, 5) == count(b, 5));
    assert(count(a, 6) == count(b, 6));
}

/// Every count of two usages adds up, as far as a `u64` goes, and is reported if one of them
/// reports it. The order does not matter, and nothing is added by no usage.
pub proof fn law_every_count_adds_up(a: Usage, b: Usage)
    ensures
        forall|k: int|
            0 <= k < COUNTS ==> {
                &&& reports(a.plus(b), k) == (reports(a, k) || reports(b, k))
                &&& count(a, k) + count(b, k) <= u64::MAX ==> #[trigger] count(a.plus(b), k)
                    == count(a, k) + count(b, k)
                &&& count(a, k) + count(b, k) > u64::MAX ==> count(a.plus(b), k) == u64::MAX
            },
        a.plus(b) == b.plus(a),
        a.plus(Usage::zero()) == a,
        forall|k: int| 0 <= k < COUNTS ==> #[trigger] count(Usage::zero(), k) == 0,
{
}

/// A prompt holds the input, and the cache reads and the cache writes exactly once each: with a
/// provider that counts neither within the input it is the sum of all three, with one that counts
/// both it is the input, and a provider that counts the reads within the input reports just the
/// reads less. Unless both are declared the prompt is not known.
pub proof fn law_prompts_hold_every_token_once(s: UsageSemantics, u: Usage)
    requires
        count(u, 0) + count(u, 2) + count(u, 3) <= u64::MAX,
    ensures
        s.prompt(u) is Some <==> s.cache_read_in_input is Some && s.cache_creation_in_input is Some,
        s.cache_read_in_input == Some(false) && s.cache_creation_in_input == Some(false)
            ==> s.prompt(u)->0 == count(u, 0) + count(u, 2) + count(u, 3),
        s.cache_read_in_input == Some(true) && s.cache_creation_in_input == Some(true) ==> s.prompt(
            u,
        )->0 == count(u, 0),
        s.cache_read_in_input == Some(true) && s.cache_creation_in_input == Some(false)
            ==> s.prompt(u)->0 + count(u, 2) == count(u, 0) + count(u, 2) + count(u, 3),
        s.cache_read_in_input == Some(false) && s.cache_creation_in_input == Some(true)
            ==> s.prompt(u)->0 + count(u, 3) == count(u, 0) + count(u, 2) + count(u, 3),
        u.disjoint_prompt() == count(u, 0) + count(u, 2) + count(u, 3),
{
}

/// What fits is kept, and what does not stops at the greatest number.
pub proof fn law_clamping(n: nat)
    ensures
        n <= u32::MAX ==> clamp32(n) == n,
        n > u32::MAX ==> clamp32(n) == u32::MAX,
        n <= u64::MAX ==> clamp64(n) == n,
        n > u64::MAX ==> clamp64(n) == u64::MAX,
{
}

/// One convention counts cache reads and writes within the input, the other beside it, and both count
/// reasoning within the output: of the same usage the prompt is the input for the one, and input,
/// reads and writes together for the other.
pub proof fn law_conventions_differ_in_the_cache(
    inclusive: UsageSemantics,
    disjoint: UsageSemantics,
    u: Usage,
    a: Option<u64>,
    b: Option<u64>,
)
    requires
        call_ensures(UsageSemantics::openai_style, (), inclusive),
        call_ensures(UsageSemantics::anthropic_style, (), disjoint),
        call_ensures(UsageSemantics::prompt_total, (&inclusive, &u), a),
        call_ensures(UsageSemantics::prompt_total, (&disjoint, &u), b),
        count(u, 0) + count(u, 2) + count(u, 3) <= u64::MAX,
    ensures
        a is Some && a->0 == count(u, 0),
        b is Some && b->0 == count(u, 0) + count(u, 2) + count(u, 3),
        inclusive.reasoning_in_output == Some(true),
        disjoint.reasoning_in_output == Some(true),
{
}

} // verus!
