//! The model catalog: providers, models, prefix rules and favorites.
use vstd::prelude::*;

use crate::context::rope;
use crate::double::Double;
use crate::paths;
use crate::seqs;
use crate::string_map;
use crate::string_map::StringMap;
use crate::text;

verus! {

/// The catalog. Entries are considered in key order.
#[derive(Debug, Clone, Default, PartialEq)]
pub struct ModelCatalogConfig {
    pub providers: StringMap<ProviderCatalogConfig>,
    pub models: StringMap<ModelCatalogEntry>,
    pub model_rules: StringMap<ModelRuleConfig>,
    pub favorites: StringMap<FavoriteConfig>,
}

/// A provider.
#[derive(Debug, Clone, Default, PartialEq, Eq)]
pub struct ProviderCatalogConfig {
    pub kind: Option<String>,
    pub label: Option<String>,
    pub aliases: Vec<String>,
    pub requires_api_key: Option<bool>,
    pub usage_semantics: Option<String>,
    /// Whether the provider bills by the model's card. `Some(false)` for a lane whose cost is
    /// unknown.
    pub priced: Option<bool>,
    pub quirks: Vec<String>,
    pub base_url: Option<String>,
    pub api_path: Option<String>,
}

/// A rate card, in US dollars per million tokens.
#[derive(Debug, Clone, Copy, Default, PartialEq, Eq, Structural)]
pub struct PricingConfig {
    pub input_per_mtok: Option<Double>,
    pub output_per_mtok: Option<Double>,
    pub cache_read_ratio: Option<Double>,
    pub cache_write_5m_ratio: Option<Double>,
    pub cache_write_1h_ratio: Option<Double>,
    pub long_context: Option<LongContextConfig>,
}

/// The surcharge on requests with a long prompt.
#[derive(Debug, Clone, Copy, PartialEq, Eq, Structural)]
pub struct LongContextConfig {
    pub prompt_threshold: u64,
    pub input_mult: Double,
    pub output_mult: Double,
}

/// A model.
#[derive(Debug, Clone, Default, PartialEq)]
pub struct ModelCatalogEntry {
    pub model: Option<String>,
    pub family: Option<String>,
    pub label: Option<String>,
    pub aliases: Vec<String>,
    pub context_soft_limit: Option<u64>,
    pub context_hard_limit: Option<u64>,
    pub max_output_tokens: Option<u32>,
    pub reasoning_in_output: Option<bool>,
    pub effort_levels: Vec<String>,
    pub default_effort: Option<String>,
    pub quirks: Vec<String>,
    pub temperature: Option<Double>,
    pub top_p: Option<Double>,
    pub presence_penalty: Option<Double>,
    pub top_k: Option<u32>,
    pub system_prompt_addendum: Option<String>,
    pub pricing: Option<PricingConfig>,
}

/// The contents of a [`ModelCatalogEntry`].
pub struct EntryView {
    pub model: Option<Seq<char>>,
    pub family: Option<Seq<char>>,
    pub label: Option<Seq<char>>,
    pub aliases: Seq<Seq<char>>,
    pub context_soft_limit: Option<u64>,
    pub context_hard_limit: Option<u64>,
    pub max_output_tokens: Option<u32>,
    pub reasoning_in_output: Option<bool>,
    pub effort_levels: Seq<Seq<char>>,
    pub default_effort: Option<Seq<char>>,
    pub quirks: Seq<Seq<char>>,
    pub temperature: Option<Double>,
    pub top_p: Option<Double>,
    pub presence_penalty: Option<Double>,
    pub top_k: Option<u32>,
    pub system_prompt_addendum: Option<Seq<char>>,
    pub pricing: Option<PricingConfig>,
}

impl DeepView for ModelCatalogEntry {
    type V = EntryView;

    open spec fn deep_view(&self) -> EntryView {
        EntryView {
            model: self.model.deep_view(),
            family: self.family.deep_view(),
            label: self.label.deep_view(),
            aliases: self.aliases.deep_view(),
            context_soft_limit: self.context_soft_limit,
            context_hard_limit: self.context_hard_limit,
            max_output_tokens: self.max_output_tokens,
            reasoning_in_output: self.reasoning_in_output,
            effort_levels: self.effort_levels.deep_view(),
            default_effort: self.default_effort.deep_view(),
            quirks: self.quirks.deep_view(),
            temperature: self.temperature,
            top_p: self.top_p,
            presence_penalty: self.presence_penalty,
            top_k: self.top_k,
            system_prompt_addendum: self.system_prompt_addendum.deep_view(),
            pricing: self.pricing,
        }
    }
}

/// Settings for the models whose name begins with one of the prefixes.
#[derive(Debug, Clone, Default, PartialEq)]
pub struct ModelRuleConfig {
    pub prefix: Option<String>,
    pub prefixes: Vec<String>,
    pub family: Option<String>,
    pub context_soft_limit: Option<u64>,
    pub context_hard_limit: Option<u64>,
    pub max_output_tokens: Option<u32>,
    pub reasoning_in_output: Option<bool>,
    pub effort_levels: Vec<String>,
    pub default_effort: Option<String>,
    pub quirks: Vec<String>,
    pub temperature: Option<Double>,
    pub top_p: Option<Double>,
    pub presence_penalty: Option<Double>,
    pub top_k: Option<u32>,
    pub system_prompt_addendum: Option<String>,
    pub pricing: Option<PricingConfig>,
}

/// A named choice of provider and model.
#[derive(Debug, Clone, Default, PartialEq, Eq)]
pub struct FavoriteConfig {
    pub provider: String,
    pub model: String,
    pub label: Option<String>,
    pub aliases: Vec<String>,
    pub default_effort: Option<String>,
    pub tools: Option<Vec<String>>,
}

/// What the catalog says about a model.
#[derive(Debug, Clone, PartialEq)]
pub struct ResolvedModelSettings {
    pub label: Option<String>,
    pub aliases: Vec<String>,
    pub family: Option<String>,
    pub context_soft_limit: Option<u64>,
    pub context_hard_limit: Option<u64>,
    pub max_output_tokens: Option<u32>,
    pub reasoning_in_output: Option<bool>,
    pub effort_levels: Vec<String>,
    pub default_effort: Option<String>,
    pub quirks: Vec<String>,
    pub temperature: Option<Double>,
    pub top_p: Option<Double>,
    pub presence_penalty: Option<Double>,
    pub top_k: Option<u32>,
    pub system_prompt_addendum: Option<String>,
    pub pricing: Option<PricingConfig>,
}

/// The contents of [`ResolvedModelSettings`].
pub struct SettingsView {
    pub label: Option<Seq<char>>,
    pub aliases: Seq<Seq<char>>,
    pub family: Option<Seq<char>>,
    pub context_soft_limit: Option<u64>,
    pub context_hard_limit: Option<u64>,
    pub max_output_tokens: Option<u32>,
    pub reasoning_in_output: Option<bool>,
    pub effort_levels: Seq<Seq<char>>,
    pub default_effort: Option<Seq<char>>,
    pub quirks: Seq<Seq<char>>,
    pub temperature: Option<Double>,
    pub top_p: Option<Double>,
    pub presence_penalty: Option<Double>,
    pub top_k: Option<u32>,
    pub system_prompt_addendum: Option<Seq<char>>,
    pub pricing: Option<PricingConfig>,
}

impl DeepView for ResolvedModelSettings {
    type V = SettingsView;

    open spec fn deep_view(&self) -> SettingsView {
        SettingsView {
            label: self.label.deep_view(),
            aliases: self.aliases.deep_view(),
            family: self.family.deep_view(),
            context_soft_limit: self.context_soft_limit,
            context_hard_limit: self.context_hard_limit,
            max_output_tokens: self.max_output_tokens,
            reasoning_in_output: self.reasoning_in_output,
            effort_levels: self.effort_levels.deep_view(),
            default_effort: self.default_effort.deep_view(),
            quirks: self.quirks.deep_view(),
            temperature: self.temperature,
            top_p: self.top_p,
            presence_penalty: self.presence_penalty,
            top_k: self.top_k,
            system_prompt_addendum: self.system_prompt_addendum.deep_view(),
            pricing: self.pricing,
        }
    }
}

/// The first of two values that is present.
pub open spec fn or<A>(a: Option<A>, b: Option<A>) -> Option<A> {
    if a is Some {
        a
    } else {
        b
    }
}

/// The first of two sequences that is not empty.
pub open spec fn or_seq<A>(a: Seq<A>, b: Seq<A>) -> Seq<A> {
    if a.len() > 0 {
        a
    } else {
        b
    }
}

/// `dst` with the rates that it lacks taken from `src`.
pub open spec fn filled_card(dst: PricingConfig, src: PricingConfig) -> PricingConfig {
    PricingConfig {
        input_per_mtok: or(dst.input_per_mtok, src.input_per_mtok),
        output_per_mtok: or(dst.output_per_mtok, src.output_per_mtok),
        cache_read_ratio: or(dst.cache_read_ratio, src.cache_read_ratio),
        cache_write_5m_ratio: or(dst.cache_write_5m_ratio, src.cache_write_5m_ratio),
        cache_write_1h_ratio: or(dst.cache_write_1h_ratio, src.cache_write_1h_ratio),
        long_context: or(dst.long_context, src.long_context),
    }
}

/// `dst` with what it lacks taken from `src`, rate cards rate by rate.
pub open spec fn filled(dst: EntryView, src: EntryView) -> EntryView {
    EntryView {
        model: or(dst.model, src.model),
        family: or(dst.family, src.family),
        label: or(dst.label, src.label),
        aliases: or_seq(dst.aliases, src.aliases),
        context_soft_limit: or(dst.context_soft_limit, src.context_soft_limit),
        context_hard_limit: or(dst.context_hard_limit, src.context_hard_limit),
        max_output_tokens: or(dst.max_output_tokens, src.max_output_tokens),
        reasoning_in_output: or(dst.reasoning_in_output, src.reasoning_in_output),
        effort_levels: or_seq(dst.effort_levels, src.effort_levels),
        default_effort: or(dst.default_effort, src.default_effort),
        quirks: or_seq(dst.quirks, src.quirks),
        temperature: or(dst.temperature, src.temperature),
        top_p: or(dst.top_p, src.top_p),
        presence_penalty: or(dst.presence_penalty, src.presence_penalty),
        top_k: or(dst.top_k, src.top_k),
        system_prompt_addendum: or(dst.system_prompt_addendum, src.system_prompt_addendum),
        pricing: match (dst.pricing, src.pricing) {
            (Some(a), Some(b)) => Some(filled_card(a, b)),
            (a, b) => or(a, b),
        },
    }
}

fn copy_strings(v: &Vec<String>) -> (r: Vec<String>)
    ensures
        r.deep_view() == v.deep_view(),
{
    let r = v.clone();
    proof {
        assert(r.deep_view() =~= v.deep_view());
    }
    r
}

/// The first of two values that is present.
fn or_copy<T: Copy>(a: Option<T>, b: Option<T>) -> (r: Option<T>)
    ensures
        r == or(a, b),
{
    match a {
        Some(x) => Some(x),
        None => b,
    }
}

/// The first of two strings that is present.
fn or_string(a: &Option<String>, b: &Option<String>) -> (r: Option<String>)
    ensures
        r.deep_view() == or(a.deep_view(), b.deep_view()),
{
    match a {
        Some(x) => Some(x.clone()),
        None => b.clone(),
    }
}

/// The first of two lists that is not empty.
fn or_list(a: &Vec<String>, b: &Vec<String>) -> (r: Vec<String>)
    ensures
        r.deep_view() == or_seq(a.deep_view(), b.deep_view()),
{
    if a.len() > 0 {
        copy_strings(a)
    } else {
        copy_strings(b)
    }
}

/// Takes what `dst` lacks from `src`: absent values, empty lists, and absent rates of the card.
pub fn fill_missing_fields(dst: &mut ModelCatalogEntry, src: &ModelCatalogEntry)
    ensures
        final(dst).deep_view() == filled(old(dst).deep_view(), src.deep_view()),
{
    dst.model = or_string(&dst.model, &src.model);
    dst.family = or_string(&dst.family, &src.family);
    dst.label = or_string(&dst.label, &src.label);
    dst.aliases = or_list(&dst.aliases, &src.aliases);
    dst.context_soft_limit = or_copy(dst.context_soft_limit, src.context_soft_limit);
    dst.context_hard_limit = or_copy(dst.context_hard_limit, src.context_hard_limit);
    dst.max_output_tokens = or_copy(dst.max_output_tokens, src.max_output_tokens);
    dst.reasoning_in_output = or_copy(dst.reasoning_in_output, src.reasoning_in_output);
    dst.effort_levels = or_list(&dst.effort_levels, &src.effort_levels);
    dst.default_effort = or_string(&dst.default_effort, &src.default_effort);
    dst.quirks = or_list(&dst.quirks, &src.quirks);
    dst.temperature = or_copy(dst.temperature, src.temperature);
    dst.top_p = or_copy(dst.top_p, src.top_p);
    dst.presence_penalty = or_copy(dst.presence_penalty, src.presence_penalty);
    dst.top_k = or_copy(dst.top_k, src.top_k);
    dst.system_prompt_addendum = or_string(&dst.system_prompt_addendum, &src.system_prompt_addendum);
    dst.pricing = match (dst.pricing, src.pricing) {
        (Some(card), Some(src_card)) => Some(fill_missing_rates(card, src_card)),
        (Some(card), None) => Some(card),
        (None, card) => card,
    };
}

fn fill_missing_rates(card: PricingConfig, src: PricingConfig) -> (r: PricingConfig)
    ensures
        r == filled_card(card, src),
{
    PricingConfig {
        input_per_mtok: or_copy(card.input_per_mtok, src.input_per_mtok),
        output_per_mtok: or_copy(card.output_per_mtok, src.output_per_mtok),
        cache_read_ratio: or_copy(card.cache_read_ratio, src.cache_read_ratio),
        cache_write_5m_ratio: or_copy(card.cache_write_5m_ratio, src.cache_write_5m_ratio),
        cache_write_1h_ratio: or_copy(card.cache_write_1h_ratio, src.cache_write_1h_ratio),
        long_context: or_copy(card.long_context, src.long_context),
    }
}

/// The strings of `a`, then those of `b` that are not there yet, each at its first place.
pub open spec fn merged(a: Seq<Seq<char>>, b: Seq<Seq<char>>) -> Seq<Seq<char>>
    decreases b.len(),
{
    if b.len() == 0 {
        a
    } else {
        let m = merged(a, b.drop_last());
        if m.contains(b.last()) {
            m
        } else {
            m.push(b.last())
        }
    }
}

/// The strings of `a`, then those of `b` that are not there yet.
pub fn merge_strings(a: &Vec<String>, b: &Vec<String>) -> (r: Vec<String>)
    ensures
        r.deep_view() == merged(a.deep_view(), b.deep_view()),
{
    let mut r = copy_strings(a);
    let ghost all = b.deep_view();
    let mut i: usize = 0;
    while i < b.len()
        invariant
            i <= b@.len(),
            all == b.deep_view(),
            r.deep_view() == merged(a.deep_view(), all.take(i as int)),
        decreases b@.len() - i,
    {
        let ghost sofar = r.deep_view();
        proof {
            assert(all.take(i + 1).drop_last() =~= all.take(i as int));
            assert(all.take(i + 1).last() == b@[i as int]@);
        }
        if !rope::contains_string(&r, &b[i]) {
            r.push(b[i].clone());
            proof {
                assert(r.deep_view() =~= sofar.push(b@[i as int]@));
            }
        }
        i += 1;
    }
    proof {
        assert(all.take(all.len() as int) =~= all);
    }
    r
}

/// The prefixes of a rule.
pub open spec fn prefixes_of(rule: ModelRuleConfig) -> Seq<Seq<char>> {
    match rule.prefix {
        Some(p) => seq![p@] + rule.prefixes.deep_view(),
        None => rule.prefixes.deep_view(),
    }
}

/// Whether the name `model` begins with `prefix`, ASCII case disregarded.
pub open spec fn begins(model: Seq<char>, prefix: Seq<char>) -> bool {
    text::has_prefix(text::lower_view(model), text::lower_view(prefix))
}

/// The length in bytes of the longest of `prefixes` that `model` begins with; none if there is no
/// such prefix.
pub open spec fn longest(prefixes: Seq<Seq<char>>, model: Seq<char>) -> Option<nat>
    decreases prefixes.len(),
{
    if prefixes.len() == 0 {
        None
    } else {
        let before = longest(prefixes.drop_last(), model);
        let n = text::byte_len_view(prefixes.last());
        if begins(model, prefixes.last()) && (before is None || before->0 < n) {
            Some(n)
        } else {
            before
        }
    }
}

impl ModelRuleConfig {
    /// The length of the longest prefix of the rule that `model` begins with.
    pub fn longest_prefix_len(&self, model: &str) -> (r: Option<usize>)
        ensures
            match r {
                Some(n) => longest(prefixes_of(*self), model@) == Some(n as nat),
                None => longest(prefixes_of(*self), model@) is None,
            },
    {
        let ghost all = prefixes_of(*self);
        let mut best: Option<usize> = None;
        if let Some(p) = &self.prefix {
            proof {
                assert(all.take(1) =~= seq![p@]);
                assert(seq![p@].drop_last() =~= Seq::empty());
            }
            if text::starts_with_ignoring_case(model, p) {
                best = Some(text::byte_len(p));
            }
        }
        let ghost off: int = if self.prefix is Some {
            1
        } else {
            0
        };
        let mut i: usize = 0;
        proof {
            reveal_with_fuel(longest, 2);
            assert(all.take(0) =~= Seq::empty());
        }
        while i < self.prefixes.len()
            invariant
                i <= self.prefixes@.len(),
                all == prefixes_of(*self),
                off == (if self.prefix is Some {
                    1int
                } else {
                    0int
                }),
                match best {
                    Some(n) => longest(all.take(off + i), model@) == Some(n as nat),
                    None => longest(all.take(off + i), model@) is None,
                },
            decreases self.prefixes@.len() - i,
        {
            proof {
                assert(all.take(off + i + 1).drop_last() =~= all.take(off + i));
                assert(all.take(off + i + 1).last() == self.prefixes@[i as int]@);
            }
            if text::starts_with_ignoring_case(model, &self.prefixes[i]) {
                let n: usize = text::byte_len(&self.prefixes[i]);
                best = match best {
                    Some(m) => if m < n {
                        Some(n)
                    } else {
                        Some(m)
                    },
                    None => Some(n),
                };
            }
            i += 1;
        }
        proof {
            assert(all.take(all.len() as int) =~= all);
        }
        best
    }

    /// Whether the rule applies to `model`.
    pub fn matches(&self, model: &str) -> (r: bool)
        ensures
            r == (longest(prefixes_of(*self), model@) is Some),
    {
        self.longest_prefix_len(model).is_some()
    }
}

/// The place of the rule for `model`: the one with the longest prefix, the last of them if there
/// are several.
pub open spec fn best_rule(
    rules: Seq<(Seq<char>, ModelRuleConfig)>,
    model: Seq<char>,
) -> Option<int>
    decreases rules.len(),
{
    if rules.len() == 0 {
        None
    } else {
        let before = best_rule(rules.drop_last(), model);
        let n = longest(prefixes_of(rules.last().1), model);
        if n is Some && (before is None || longest(prefixes_of(rules[before->0].1), model)->0
            <= n->0) {
            Some(rules.len() - 1)
        } else {
            before
        }
    }
}

/// The rule that applies has a longest prefix: no rule has a longer one, and no later rule has one
/// as long. Without such a rule no rule applies.
pub proof fn law_best_rule_has_the_longest_prefix(
    rules: Seq<(Seq<char>, ModelRuleConfig)>,
    model: Seq<char>,
    j: int,
)
    requires
        0 <= j < rules.len(),
        longest(prefixes_of(rules[j].1), model) is Some,
    ensures
        best_rule(rules, model) is Some,
        0 <= best_rule(rules, model)->0 < rules.len(),
        longest(prefixes_of(rules[best_rule(rules, model)->0].1), model) is Some,
        longest(prefixes_of(rules[j].1), model)->0 <= longest(
            prefixes_of(rules[best_rule(rules, model)->0].1),
            model,
        )->0,
        j > best_rule(rules, model)->0 ==> longest(prefixes_of(rules[j].1), model)->0 < longest(
            prefixes_of(rules[best_rule(rules, model)->0].1),
            model,
        )->0,
    decreases rules.len(),
{
    let t = rules.drop_last();
    lemma_best_rule_applies(t, model);
    if j < t.len() {
        assert(t[j] == rules[j]);
        law_best_rule_has_the_longest_prefix(t, model, j);
    }
    if best_rule(t, model) is Some {
        assert(t[best_rule(t, model)->0] == rules[best_rule(t, model)->0]);
    }
}

proof fn lemma_best_rule_applies(rules: Seq<(Seq<char>, ModelRuleConfig)>, model: Seq<char>)
    ensures
        match best_rule(rules, model) {
            Some(i) => 0 <= i < rules.len() && longest(prefixes_of(rules[i].1), model) is Some,
            None => true,
        },
    decreases rules.len(),
{
    if rules.len() > 0 {
        lemma_best_rule_applies(rules.drop_last(), model);
    }
}

/// Whether `model` is the name or an alias of `e`.
pub open spec fn is_named(e: ModelCatalogEntry, model: Seq<char>) -> bool {
    e.model.deep_view() == Some(model) || e.aliases.deep_view().contains(model)
}

fn has_name(e: &ModelCatalogEntry, model: &str) -> (r: bool)
    ensures
        r == is_named(*e, model@),
{
    opt_is(&e.model, model) || rope::contains_string(&e.aliases, model)
}

/// Whether `o` is `s`.
pub fn opt_is(o: &Option<String>, s: &str) -> (r: bool)
    ensures
        r == (o.deep_view() == Some(s@)),
{
    match o {
        Some(x) => text::same(x, s),
        None => false,
    }
}

/// The settings of a model with the rule `rule` and the entry `entry`: what the entry says, and
/// where it says nothing what the rule says. The quirks are those of both.
pub open spec fn settings(
    rule: Option<ModelRuleConfig>,
    entry: Option<ModelCatalogEntry>,
) -> SettingsView {
    let base = match rule {
        Some(r) => SettingsView {
            label: None,
            aliases: Seq::empty(),
            family: r.family.deep_view(),
            context_soft_limit: r.context_soft_limit,
            context_hard_limit: r.context_hard_limit,
            max_output_tokens: r.max_output_tokens,
            reasoning_in_output: r.reasoning_in_output,
            effort_levels: r.effort_levels.deep_view(),
            default_effort: r.default_effort.deep_view(),
            quirks: r.quirks.deep_view(),
            temperature: r.temperature,
            top_p: r.top_p,
            presence_penalty: r.presence_penalty,
            top_k: r.top_k,
            system_prompt_addendum: r.system_prompt_addendum.deep_view(),
            pricing: r.pricing,
        },
        None => no_settings(),
    };
    match entry {
        Some(e) => SettingsView {
            label: or(e.label.deep_view(), base.label),
            aliases: or_seq(e.aliases.deep_view(), base.aliases),
            family: or(e.family.deep_view(), base.family),
            context_soft_limit: or(e.context_soft_limit, base.context_soft_limit),
            context_hard_limit: or(e.context_hard_limit, base.context_hard_limit),
            max_output_tokens: or(e.max_output_tokens, base.max_output_tokens),
            reasoning_in_output: or(e.reasoning_in_output, base.reasoning_in_output),
            effort_levels: or_seq(e.effort_levels.deep_view(), base.effort_levels),
            default_effort: or(e.default_effort.deep_view(), base.default_effort),
            quirks: merged(base.quirks, e.quirks.deep_view()),
            temperature: or(e.temperature, base.temperature),
            top_p: or(e.top_p, base.top_p),
            presence_penalty: or(e.presence_penalty, base.presence_penalty),
            top_k: or(e.top_k, base.top_k),
            system_prompt_addendum: or(
                e.system_prompt_addendum.deep_view(),
                base.system_prompt_addendum,
            ),
            pricing: or(e.pricing, base.pricing),
        },
        None => base,
    }
}

/// The settings of a model of which the catalog says nothing.
pub open spec fn no_settings() -> SettingsView {
    SettingsView {
        label: None,
        aliases: Seq::empty(),
        family: None,
        context_soft_limit: None,
        context_hard_limit: None,
        max_output_tokens: None,
        reasoning_in_output: None,
        effort_levels: Seq::empty(),
        default_effort: None,
        quirks: Seq::empty(),
        temperature: None,
        top_p: None,
        presence_penalty: None,
        top_k: None,
        system_prompt_addendum: None,
        pricing: None,
    }
}

impl Default for ResolvedModelSettings {
    fn default() -> (r: Self)
        ensures
            r.deep_view() == no_settings(),
    {
        let r = ResolvedModelSettings {
            label: None,
            aliases: Vec::new(),
            family: None,
            context_soft_limit: None,
            context_hard_limit: None,
            max_output_tokens: None,
            reasoning_in_output: None,
            effort_levels: Vec::new(),
            default_effort: None,
            quirks: Vec::new(),
            temperature: None,
            top_p: None,
            presence_penalty: None,
            top_k: None,
            system_prompt_addendum: None,
            pricing: None,
        };
        proof {
            assert(r.aliases.deep_view() =~= Seq::empty());
            assert(r.effort_levels.deep_view() =~= Seq::empty());
            assert(r.quirks.deep_view() =~= Seq::empty());
        }
        r
    }
}

/// The settings that the rule alone gives.
fn rule_settings(rule: &ModelRuleConfig) -> (r: ResolvedModelSettings)
    ensures
        r.deep_view() == settings(Some(*rule), None),
{
    let r = ResolvedModelSettings {
        label: None,
        aliases: Vec::new(),
        family: rule.family.clone(),
        context_soft_limit: rule.context_soft_limit,
        context_hard_limit: rule.context_hard_limit,
        max_output_tokens: rule.max_output_tokens,
        reasoning_in_output: rule.reasoning_in_output,
        effort_levels: copy_strings(&rule.effort_levels),
        default_effort: rule.default_effort.clone(),
        quirks: copy_strings(&rule.quirks),
        temperature: rule.temperature,
        top_p: rule.top_p,
        presence_penalty: rule.presence_penalty,
        top_k: rule.top_k,
        system_prompt_addendum: rule.system_prompt_addendum.clone(),
        pricing: rule.pricing,
    };
    proof {
        assert(r.aliases.deep_view() =~= Seq::empty());
    }
    r
}

/// Lays the entry `m` over the settings `out`.
fn overlay(
    out: ResolvedModelSettings,
    m: &ModelCatalogEntry,
    Ghost(rule): Ghost<Option<ModelRuleConfig>>,
) -> (r: ResolvedModelSettings)
    requires
        out.deep_view() == settings(rule, None),
    ensures
        r.deep_view() == settings(rule, Some(*m)),
{
    ResolvedModelSettings {
        label: or_string(&m.label, &out.label),
        aliases: or_list(&m.aliases, &out.aliases),
        family: or_string(&m.family, &out.family),
        context_soft_limit: or_copy(m.context_soft_limit, out.context_soft_limit),
        context_hard_limit: or_copy(m.context_hard_limit, out.context_hard_limit),
        max_output_tokens: or_copy(m.max_output_tokens, out.max_output_tokens),
        reasoning_in_output: or_copy(m.reasoning_in_output, out.reasoning_in_output),
        effort_levels: or_list(&m.effort_levels, &out.effort_levels),
        default_effort: or_string(&m.default_effort, &out.default_effort),
        quirks: merge_strings(&out.quirks, &m.quirks),
        temperature: or_copy(m.temperature, out.temperature),
        top_p: or_copy(m.top_p, out.top_p),
        presence_penalty: or_copy(m.presence_penalty, out.presence_penalty),
        top_k: or_copy(m.top_k, out.top_k),
        system_prompt_addendum: or_string(&m.system_prompt_addendum, &out.system_prompt_addendum),
        pricing: or_copy(m.pricing, out.pricing),
    }
}

impl ModelCatalogConfig {
    /// The entry for `model`: the first that has it as its name or as an alias.
    pub open spec fn entry_for(&self, model: Seq<char>) -> Option<ModelCatalogEntry> {
        match seqs::find(
            self.models.pairs(),
            |e: (Seq<char>, ModelCatalogEntry)| is_named(e.1, model),
        ) {
            Some(i) => Some(self.models.pairs()[i].1),
            None => None,
        }
    }

    /// The rule for `model`.
    pub open spec fn rule_for(&self, model: Seq<char>) -> Option<ModelRuleConfig> {
        match best_rule(self.model_rules.pairs(), model) {
            Some(i) => Some(self.model_rules.pairs()[i].1),
            None => None,
        }
    }

    /// What the catalog says about `model`.
    pub open spec fn resolved(&self, model: Seq<char>) -> SettingsView {
        settings(self.rule_for(model), self.entry_for(model))
    }

    fn matching_rule(&self, model: &str) -> (r: Option<&ModelRuleConfig>)
        ensures
            match r {
                Some(rule) => self.rule_for(model@) == Some(*rule),
                None => self.rule_for(model@) is None,
            },
    {
        let n: usize = self.model_rules.len();
        let ghost p = self.model_rules.pairs();
        let mut best: Option<(usize, usize)> = None;
        let mut i: usize = 0;
        proof {
            assert(p.take(0) =~= Seq::empty());
        }
        while i < n
            invariant
                i <= n,
                n == p.len(),
                p == self.model_rules.pairs(),
                match best {
                    Some((at, len)) => best_rule(p.take(i as int), model@) == Some(at as int) && at
                        < i && longest(prefixes_of(p[at as int].1), model@) == Some(len as nat),
                    None => best_rule(p.take(i as int), model@) is None,
                },
            decreases n - i,
        {
            proof {
                assert(p.take(i + 1).drop_last() =~= p.take(i as int));
                assert(p.take(i + 1).last() == p[i as int]);
                if best is Some {
                    let at = best->0;
                    assert(p.take(i + 1)[at.0 as int] == p[at.0 as int]);
                }
            }
            if let Some(len) = self.model_rules.value_at(i).longest_prefix_len(model) {
                let better = match best {
                    Some((_, known)) => known <= len,
                    None => true,
                };
                if better {
                    best = Some((i, len));
                }
            }
            i += 1;
        }
        proof {
            assert(p.take(p.len() as int) =~= p);
        }
        match best {
            Some((at, _)) => Some(self.model_rules.value_at(at)),
            None => None,
        }
    }

    fn matching_entry(&self, model: &str) -> (r: Option<&ModelCatalogEntry>)
        ensures
            match r {
                Some(e) => self.entry_for(model@) == Some(*e),
                None => self.entry_for(model@) is None,
            },
    {
        let ghost p = self.models.pairs();
        let ghost f = |e: (Seq<char>, ModelCatalogEntry)| is_named(e.1, model@);
        let n: usize = self.models.len();
        let mut i: usize = 0;
        while i < n
            invariant
                i <= n,
                n == p.len(),
                p == self.models.pairs(),
                f == (|e: (Seq<char>, ModelCatalogEntry)| is_named(e.1, model@)),
                forall|j: int| 0 <= j < i ==> !f(#[trigger] p[j]),
            decreases n - i,
        {
            if has_name(self.models.value_at(i), model) {
                proof {
                    seqs::lemma_found(p, f, i as int);
                }
                return Some(self.models.value_at(i));
            }
            i += 1;
        }
        proof {
            seqs::lemma_not_found(p, f);
        }
        None
    }

    /// What the catalog says about `model`: its entry, laid over the rule with the longest
    /// matching prefix.
    pub fn resolve_model(&self, model: &str) -> (r: ResolvedModelSettings)
        ensures
            r.deep_view() == self.resolved(model@),
    {
        let (out, rule) = match self.matching_rule(model) {
            Some(rule) => (rule_settings(rule), Ghost(Some(*rule))),
            None => (ResolvedModelSettings::default(), Ghost(None)),
        };
        match self.matching_entry(model) {
            Some(m) => overlay(out, m, rule),
            None => out,
        }
    }
}

/// The contents of the model entries `m`.
pub open spec fn entries(m: Map<Seq<char>, ModelCatalogEntry>) -> Map<Seq<char>, EntryView> {
    m.map_values(|e: ModelCatalogEntry| e.deep_view())
}

/// Whether the entry `k`, which is not the operator's, is for the same model as the operator's
/// entry `key`.
pub open spec fn is_shadow(
    m: Map<Seq<char>, EntryView>,
    ops: Seq<Seq<char>>,
    key: Seq<char>,
    model: Seq<char>,
    k: Seq<char>,
) -> bool {
    k != key && !ops.contains(k) && m[k].model == Some(model)
}

/// The keys of the entries that the operator's entry `key` shadows, in key order.
pub open spec fn shadows(
    m: Map<Seq<char>, EntryView>,
    ops: Seq<Seq<char>>,
    key: Seq<char>,
    model: Seq<char>,
) -> Seq<Seq<char>> {
    string_map::sorted_keys(m.dom()).filter(|k: Seq<char>| is_shadow(m, ops, key, model, k))
}

/// `e` with what it lacks taken from the entries `keys` of `m`, in order.
pub open spec fn fill_all(
    e: EntryView,
    m: Map<Seq<char>, EntryView>,
    keys: Seq<Seq<char>>,
) -> EntryView
    decreases keys.len(),
{
    if keys.len() == 0 {
        e
    } else {
        filled(fill_all(e, m, keys.drop_last()), m[keys.last()])
    }
}

/// The entries after those that `key` shadows were folded into it.
pub open spec fn absorbed(
    m: Map<Seq<char>, EntryView>,
    ops: Seq<Seq<char>>,
    key: Seq<char>,
    model: Seq<char>,
) -> Map<Seq<char>, EntryView> {
    let s = shadows(m, ops, key, model);
    m.remove_keys(s.to_set()).insert(key, fill_all(m[key], m, s))
}

/// The operator's entries that name a model, in key order.
pub open spec fn leads(m: Map<Seq<char>, EntryView>, ops: Seq<Seq<char>>) -> Seq<Seq<char>> {
    string_map::sorted_keys(m.dom()).filter(
        |k: Seq<char>| ops.contains(k) && m[k].model is Some,
    )
}

/// The entries after each of the operator's entries `keys`, in order, absorbed what it shadows.
/// Their models are those in `m0`.
pub open spec fn folded_over(
    m0: Map<Seq<char>, EntryView>,
    ops: Seq<Seq<char>>,
    keys: Seq<Seq<char>>,
) -> Map<Seq<char>, EntryView>
    decreases keys.len(),
{
    if keys.len() == 0 {
        m0
    } else {
        absorbed(
            folded_over(m0, ops, keys.drop_last()),
            ops,
            keys.last(),
            m0[keys.last()].model->0,
        )
    }
}

/// The entries after the operator's entries absorbed what they shadow.
pub open spec fn folded(
    m: Map<Seq<char>, EntryView>,
    ops: Seq<Seq<char>>,
) -> Map<Seq<char>, EntryView> {
    folded_over(m, ops, leads(m, ops))
}

/// Whether all that `a` says, `b` says too.
pub open spec fn extends(a: EntryView, b: EntryView) -> bool {
    filled(a, b) == b
}

proof fn lemma_extends_filled(a: EntryView, b: EntryView, src: EntryView)
    requires
        extends(a, b),
    ensures
        extends(a, filled(b, src)),
{
}

proof fn lemma_fill_all_extends(e: EntryView, m: Map<Seq<char>, EntryView>, keys: Seq<Seq<char>>)
    ensures
        extends(e, fill_all(e, m, keys)),
    decreases keys.len(),
{
    if keys.len() > 0 {
        lemma_fill_all_extends(e, m, keys.drop_last());
        lemma_extends_filled(e, fill_all(e, m, keys.drop_last()), m[keys.last()]);
    }
}

proof fn lemma_extends_transitive(a: EntryView, b: EntryView, c: EntryView)
    requires
        extends(a, b),
        extends(b, c),
    ensures
        extends(a, c),
{
}

proof fn lemma_shadows(
    m: Map<Seq<char>, EntryView>,
    ops: Seq<Seq<char>>,
    key: Seq<char>,
    model: Seq<char>,
    k: Seq<char>,
)
    requires
        exists|o: Seq<Seq<char>>| string_map::increasing(o) && #[trigger] o.to_set() == m.dom(),
    ensures
        shadows(m, ops, key, model).contains(k) <==> m.contains_key(k) && is_shadow(
            m,
            ops,
            key,
            model,
            k,
        ),
{
    let all = string_map::sorted_keys(m.dom());
    assert(string_map::increasing(all) && all.to_set() == m.dom());
    let p = |k: Seq<char>| is_shadow(m, ops, key, model, k);
    seqs::lemma_filter_to_set(all, p);
    assert(all.filter(p).to_set().contains(k) == all.filter(p).contains(k));
    assert(all.to_set().filter(p).contains(k) == (m.dom().contains(k) && p(k)));
}

/// Whether the keys of `m` can be listed in order, as those of every finite map can.
spec fn listable(m: Map<Seq<char>, EntryView>) -> bool {
    exists|o: Seq<Seq<char>>| string_map::increasing(o) && #[trigger] o.to_set() == m.dom()
}

/// Absorbing keeps the operator's entries and what they say, and leaves no other entry for the
/// model that was absorbed.
proof fn lemma_absorbed(
    m: Map<Seq<char>, EntryView>,
    ops: Seq<Seq<char>>,
    key: Seq<char>,
    model: Seq<char>,
    k: Seq<char>,
)
    requires
        listable(m),
        m.contains_key(key),
        ops.contains(key),
    ensures
        listable(absorbed(m, ops, key, model)),
        ops.contains(k) && m.contains_key(k) ==> absorbed(m, ops, key, model).contains_key(k)
            && extends(m[k], absorbed(m, ops, key, model)[k]),
        absorbed(m, ops, key, model).contains_key(k) ==> m.contains_key(k),
        !ops.contains(k) && absorbed(m, ops, key, model).contains_key(k) ==> absorbed(
            m,
            ops,
            key,
            model,
        )[k] == m[k] && m[k].model != Some(model),
{
    let s = shadows(m, ops, key, model);
    let a = absorbed(m, ops, key, model);
    lemma_shadows(m, ops, key, model, k);
    lemma_shadows(m, ops, key, model, key);
    lemma_fill_all_extends(m[key], m, s);
    assert(s.to_set().contains(k) == s.contains(k));
    let all = string_map::sorted_keys(m.dom());
    assert(string_map::increasing(all) && all.to_set() == m.dom());
    let p = |x: Seq<char>| !is_shadow(m, ops, key, model, x);
    let rest = all.filter(p);
    seqs::lemma_filter_to_set(all, p);
    string_map::lemma_filter_increasing(all, p);
    assert(rest.to_set() =~= a.dom()) by {
        assert forall|x: Seq<char>| rest.to_set().contains(x) == a.dom().contains(x) by {
            lemma_shadows(m, ops, key, model, x);
            assert(s.to_set().contains(x) == s.contains(x));
            assert(all.to_set().filter(p).contains(x) == (m.dom().contains(x) && p(x)));
        }
    }
}

/// Folding keeps every entry of the operator, with all that it says.
pub proof fn law_operator_entries_survive(
    m: Map<Seq<char>, EntryView>,
    ops: Seq<Seq<char>>,
    k: Seq<char>,
)
    requires
        m.dom().finite(),
        ops.contains(k),
        m.contains_key(k),
    ensures
        folded(m, ops).contains_key(k),
        extends(m[k], folded(m, ops)[k]),
{
    string_map::lemma_sorted_keys_exist(m.dom());
    lemma_leads(m, ops);
    lemma_folded_over(m, ops, leads(m, ops), k);
}

/// After folding, no entry of another layer is for a model that the operator has an entry for.
pub proof fn law_no_shadow_remains(
    m: Map<Seq<char>, EntryView>,
    ops: Seq<Seq<char>>,
    key: Seq<char>,
    k: Seq<char>,
)
    requires
        m.dom().finite(),
        ops.contains(key),
        m.contains_key(key),
        m[key].model is Some,
        !ops.contains(k),
        folded(m, ops).contains_key(k),
    ensures
        folded(m, ops)[k].model != m[key].model,
        folded(m, ops)[k] == m[k],
{
    string_map::lemma_sorted_keys_exist(m.dom());
    lemma_leads(m, ops);
    let keys = leads(m, ops);
    let all = string_map::sorted_keys(m.dom());
    let p = |x: Seq<char>| ops.contains(x) && m[x].model is Some;
    seqs::lemma_filter_to_set(all, p);
    assert(all.to_set().filter(p).contains(key));
    assert(keys.to_set().contains(key) == keys.contains(key));
    lemma_folded_others(m, ops, keys, key, k);
}

/// Folding adds no entry. An entry of another layer is dropped exactly if the operator has an entry
/// for the same model, and is else kept as it is.
pub proof fn law_only_shadowed_entries_go(
    m: Map<Seq<char>, EntryView>,
    ops: Seq<Seq<char>>,
    k: Seq<char>,
)
    requires
        m.dom().finite(),
    ensures
        folded(m, ops).contains_key(k) ==> m.contains_key(k),
        m.contains_key(k) && !ops.contains(k) ==> (folded(m, ops).contains_key(k) <==> !exists|
            key: Seq<char>,
        | #[trigger]
            ops.contains(key) && m.contains_key(key) && m[key].model is Some && m[key].model
                == m[k].model),
        folded(m, ops).contains_key(k) && !ops.contains(k) ==> folded(m, ops)[k] == m[k],
{
    string_map::lemma_sorted_keys_exist(m.dom());
    lemma_leads(m, ops);
    let keys = leads(m, ops);
    lemma_no_new_key(m, ops, keys, k);
    if !ops.contains(k) && m.contains_key(k) {
        if folded(m, ops).contains_key(k) {
            lemma_folded_others(m, ops, keys, k, k);
            assert forall|key: Seq<char>| #[trigger]
                ops.contains(key) && m.contains_key(key) && m[key].model is Some implies m[key].model
                != m[k].model by {
                law_no_shadow_remains(m, ops, key, k);
            }
        } else {
            let i = lemma_dropped(m, ops, keys, k);
            assert(ops.contains(keys[i]));
        }
    }
}

proof fn lemma_no_new_key(
    m: Map<Seq<char>, EntryView>,
    ops: Seq<Seq<char>>,
    keys: Seq<Seq<char>>,
    k: Seq<char>,
)
    requires
        listable(m),
        forall|i: int|
            0 <= i < keys.len() ==> ops.contains(#[trigger] keys[i]) && m.contains_key(keys[i]),
    ensures
        folded_over(m, ops, keys).contains_key(k) ==> m.contains_key(k),
    decreases keys.len(),
{
    if keys.len() > 0 {
        let before = keys.drop_last();
        let last = keys.last();
        assert(last == keys[keys.len() - 1]);
        assert forall|i: int| 0 <= i < before.len() implies ops.contains(#[trigger] before[i])
            && m.contains_key(before[i]) by {
            assert(before[i] == keys[i]);
        }
        lemma_folded_over(m, ops, before, last);
        lemma_absorbed(folded_over(m, ops, before), ops, last, m[last].model->0, k);
        lemma_no_new_key(m, ops, before, k);
    }
}

/// What was dropped is for the model of one of the entries `keys`.
proof fn lemma_dropped(
    m: Map<Seq<char>, EntryView>,
    ops: Seq<Seq<char>>,
    keys: Seq<Seq<char>>,
    k: Seq<char>,
) -> (r: int)
    requires
        listable(m),
        forall|i: int|
            0 <= i < keys.len() ==> ops.contains(#[trigger] keys[i]) && m.contains_key(keys[i])
                && m[keys[i]].model is Some,
        !ops.contains(k),
        m.contains_key(k),
        !folded_over(m, ops, keys).contains_key(k),
    ensures
        0 <= r < keys.len(),
        m[keys[r]].model == m[k].model,
    decreases keys.len(),
{
    let before = keys.drop_last();
    let last = keys.last();
    assert(last == keys[keys.len() - 1]);
    assert forall|i: int| 0 <= i < before.len() implies ops.contains(#[trigger] before[i])
        && m.contains_key(before[i]) && m[before[i]].model is Some by {
        assert(before[i] == keys[i]);
    }
    let f = folded_over(m, ops, before);
    if f.contains_key(k) {
        let model = m[last].model->0;
        lemma_folded_over(m, ops, before, last);
        lemma_folded_others(m, ops, before, k, k);
        lemma_shadows(f, ops, last, model, k);
        let s = shadows(f, ops, last, model);
        assert(s.to_set().contains(k) == s.contains(k));
        keys.len() - 1
    } else {
        lemma_dropped(m, ops, before, k)
    }
}

proof fn lemma_leads(m: Map<Seq<char>, EntryView>, ops: Seq<Seq<char>>)
    requires
        listable(m),
    ensures
        forall|i: int|
            0 <= i < leads(m, ops).len() ==> ops.contains(#[trigger] leads(m, ops)[i])
                && m.contains_key(leads(m, ops)[i]) && m[leads(m, ops)[i]].model is Some,
{
    let all = string_map::sorted_keys(m.dom());
    assert(string_map::increasing(all) && all.to_set() == m.dom());
    let p = |k: Seq<char>| ops.contains(k) && m[k].model is Some;
    seqs::lemma_filter_to_set(all, p);
    assert forall|i: int| 0 <= i < leads(m, ops).len() implies ops.contains(
        #[trigger] leads(m, ops)[i],
    ) && m.contains_key(leads(m, ops)[i]) && m[leads(m, ops)[i]].model is Some by {
        let k = leads(m, ops)[i];
        assert(leads(m, ops).contains(k));
        assert(leads(m, ops).to_set().contains(k));
        assert(all.to_set().filter(p).contains(k));
    }
}

proof fn lemma_folded_over(
    m: Map<Seq<char>, EntryView>,
    ops: Seq<Seq<char>>,
    keys: Seq<Seq<char>>,
    k: Seq<char>,
)
    requires
        listable(m),
        forall|i: int|
            0 <= i < keys.len() ==> ops.contains(#[trigger] keys[i]) && m.contains_key(keys[i]),
    ensures
        listable(folded_over(m, ops, keys)),
        ops.contains(k) && m.contains_key(k) ==> folded_over(m, ops, keys).contains_key(k)
            && extends(m[k], folded_over(m, ops, keys)[k]),
    decreases keys.len(),
{
    if keys.len() > 0 {
        let before = keys.drop_last();
        let key = keys.last();
        assert(key == keys[keys.len() - 1]);
        assert forall|i: int| 0 <= i < before.len() implies ops.contains(#[trigger] before[i])
            && m.contains_key(before[i]) by {
            assert(before[i] == keys[i]);
        }
        lemma_folded_over(m, ops, before, k);
        lemma_folded_over(m, ops, before, key);
        let f = folded_over(m, ops, before);
        lemma_absorbed(f, ops, key, m[key].model->0, k);
        if ops.contains(k) && m.contains_key(k) {
            lemma_extends_transitive(m[k], f[k], folded_over(m, ops, keys)[k]);
        }
    } else {
        assert(extends(m[k], m[k]));
    }
}

proof fn lemma_folded_others(
    m: Map<Seq<char>, EntryView>,
    ops: Seq<Seq<char>>,
    keys: Seq<Seq<char>>,
    key: Seq<char>,
    k: Seq<char>,
)
    requires
        listable(m),
        forall|i: int|
            0 <= i < keys.len() ==> ops.contains(#[trigger] keys[i]) && m.contains_key(keys[i])
                && m[keys[i]].model is Some,
        !ops.contains(k),
        folded_over(m, ops, keys).contains_key(k),
    ensures
        m.contains_key(k),
        folded_over(m, ops, keys)[k] == m[k],
        keys.contains(key) ==> m[k].model != m[key].model,
    decreases keys.len(),
{
    if keys.len() > 0 {
        let before = keys.drop_last();
        let last = keys.last();
        assert(last == keys[keys.len() - 1]);
        assert forall|i: int| 0 <= i < before.len() implies ops.contains(#[trigger] before[i])
            && m.contains_key(before[i]) && m[before[i]].model is Some by {
            assert(before[i] == keys[i]);
        }
        lemma_folded_over(m, ops, before, last);
        let f = folded_over(m, ops, before);
        lemma_absorbed(f, ops, last, m[last].model->0, k);
        lemma_folded_others(m, ops, before, key, k);
        seqs::lemma_push_contains(before, last);
        assert(keys =~= before.push(last));
    }
}

/// Folds into each entry of the operator the entries of other layers for the same model: what the
/// operator's entry lacks is taken from them, and they are removed.
pub fn fold_operator_overrides(
    models: &mut StringMap<ModelCatalogEntry>,
    operator_keys: &Vec<String>,
)
    ensures
        entries(final(models)@) == folded(entries(old(models)@), operator_keys.deep_view()),
{
    let ghost m0 = entries(models@);
    let ghost ops = operator_keys.deep_view();
    let pairs = operator_models(models, operator_keys);
    let ghost keys = leads(m0, ops);
    proof {
        lemma_listable(models@, *models);
        lemma_leads(m0, ops);
    }
    let mut i: usize = 0;
    while i < pairs.len()
        invariant
            i <= pairs@.len(),
            ops == operator_keys.deep_view(),
            keys == leads(m0, ops),
            keys.len() == pairs@.len(),
            listable(m0),
            forall|j: int|
                0 <= j < keys.len() ==> (#[trigger] pairs@[j]).0@ == keys[j] && m0[keys[j]].model
                    == Some(pairs@[j].1@),
            forall|j: int|
                0 <= j < keys.len() ==> ops.contains(#[trigger] keys[j]) && m0.contains_key(
                    keys[j],
                ),
            entries(models@) == folded_over(m0, ops, keys.take(i as int)),
        decreases pairs@.len() - i,
    {
        let (key, model) = &pairs[i];
        proof {
            assert(keys.take(i + 1).drop_last() =~= keys.take(i as int));
            assert(keys.take(i + 1).last() == keys[i as int]);
            assert(pairs@[i as int].0@ == keys[i as int]);
            assert forall|j: int| 0 <= j < keys.take(i as int).len() implies ops.contains(
                #[trigger] keys.take(i as int)[j],
            ) && m0.contains_key(keys.take(i as int)[j]) by {
                assert(keys.take(i as int)[j] == keys[j]);
            }
            lemma_folded_over(m0, ops, keys.take(i as int), keys[i as int]);
        }
        absorb(models, operator_keys, key, model);
        i += 1;
    }
    proof {
        assert(keys.take(keys.len() as int) =~= keys);
    }
}

/// The keys of a map can be listed in order.
proof fn lemma_listable(m: Map<Seq<char>, ModelCatalogEntry>, models: StringMap<ModelCatalogEntry>)
    requires
        m == models@,
        string_map::strictly_sorted(models.pairs()),
    ensures
        listable(entries(m)),
{
    let o = models.pairs().map_values(|e: (Seq<char>, ModelCatalogEntry)| e.0);
    string_map::lemma_pairs_keys(models.pairs());
    assert(entries(m).dom() =~= m.dom());
    assert(o.to_set() == entries(m).dom());
}

/// Keys and models of the operator's entries that name a model, in key order.
fn operator_models(
    models: &StringMap<ModelCatalogEntry>,
    operator_keys: &Vec<String>,
) -> (r: Vec<(String, String)>)
    ensures
        string_map::strictly_sorted(models.pairs()),
        r@.len() == leads(entries(models@), operator_keys.deep_view()).len(),
        forall|j: int|
            0 <= j < r@.len() ==> (#[trigger] r@[j]).0@ == leads(
                entries(models@),
                operator_keys.deep_view(),
            )[j] && entries(models@)[r@[j].0@].model == Some(r@[j].1@),
{
    let ghost m = entries(models@);
    let ghost ops = operator_keys.deep_view();
    let ghost p = |k: Seq<char>| ops.contains(k) && m[k].model is Some;
    let names = models.keys();
    let ghost all = names.deep_view();
    let n: usize = models.len();
    let mut r: Vec<(String, String)> = Vec::new();
    let mut i: usize = 0;
    proof {
        assert(m.dom() =~= models@.dom());
        seqs::lemma_filter_start(all, p);
    }
    while i < names.len()
        invariant
            i <= names@.len(),
            n == names@.len(),
            n == models.pairs().len(),
            m == entries(models@),
            ops == operator_keys.deep_view(),
            p == (|k: Seq<char>| ops.contains(k) && m[k].model is Some),
            all == names.deep_view(),
            string_map::strictly_sorted(models.pairs()),
            all == models.pairs().map_values(|e: (Seq<char>, ModelCatalogEntry)| e.0),
            r@.len() == all.take(i as int).filter(p).len(),
            forall|j: int|
                0 <= j < r@.len() ==> (#[trigger] r@[j]).0@ == all.take(i as int).filter(p)[j]
                    && m[r@[j].0@].model == Some(r@[j].1@),
        decreases names@.len() - i,
    {
        let ghost f = all.take(i as int).filter(p);
        proof {
            seqs::lemma_filter_step(all, i as int, p);
            string_map::lemma_pairs_map_at(models.pairs(), i as int);
            assert(all[i as int] == names@[i as int]@);
            assert(all[i as int] == models.pairs()[i as int].0);
        }
        if rope::contains_string(operator_keys, names[i]) {
            if let Some(model) = &models.value_at(i).model {
                r.push((names[i].to_owned(), model.clone()));
            }
        }
        i += 1;
    }
    proof {
        seqs::lemma_filter_start(all, p);
    }
    r
}

/// Folds the entries that `key` shadows into it.
fn absorb(
    models: &mut StringMap<ModelCatalogEntry>,
    operator_keys: &Vec<String>,
    key: &str,
    model: &str,
)
    requires
        old(models)@.contains_key(key@),
        operator_keys.deep_view().contains(key@),
    ensures
        entries(final(models)@) == absorbed(
            entries(old(models)@),
            operator_keys.deep_view(),
            key@,
            model@,
        ),
{
    let ghost m = entries(models@);
    let ghost ops = operator_keys.deep_view();
    let found = shadow_keys(models, operator_keys, key, model);
    let ghost s = found.deep_view();
    proof {
        lemma_listable(models@, *models);
        assert(s.take(0) =~= Seq::empty());
        assert(m.remove_keys(s.take(0).to_set()).insert(key@, m[key@]) =~= m);
        assert forall|k: Seq<char>| #[trigger] s.contains(k) implies m.contains_key(k) && k
            != key@ by {
            lemma_shadows(m, ops, key@, model@, k);
        }
        string_map::lemma_filter_increasing(
            string_map::sorted_keys(m.dom()),
            |k: Seq<char>| is_shadow(m, ops, key@, model@, k),
        );
        assert(string_map::increasing(string_map::sorted_keys(m.dom())));
    }
    let mut j: usize = 0;
    while j < found.len()
        invariant
            j <= found@.len(),
            s == found.deep_view(),
            string_map::increasing(s),
            m.contains_key(key@),
            forall|k: Seq<char>| #[trigger] s.contains(k) ==> m.contains_key(k) && k != key@,
            entries(models@) == m.remove_keys(s.take(j as int).to_set()).insert(
                key@,
                fill_all(m[key@], m, s.take(j as int)),
            ),
        decreases found@.len() - j,
    {
        let ghost now = entries(models@);
        let ghost k = s[j as int];
        proof {
            assert(s.take(j + 1).drop_last() =~= s.take(j as int));
            assert(s.take(j + 1).last() == k);
            assert(k == found@[j as int]@);
            assert(s.contains(k));
            assert(!s.take(j as int).contains(k)) by {
                if s.take(j as int).contains(k) {
                    let a = choose|a: int| 0 <= a < s.take(j as int).len() && s.take(j as int)[a]
                        == k;
                    assert(text::str_lt(s[a], s[j as int]));
                    text::lemma_str_lt_irreflexive(k);
                }
            }
            assert(s.take(j as int).to_set().contains(k) == s.take(j as int).contains(k));
            assert(models@.contains_key(k)) by {
                assert(now.contains_key(k));
            }
            assert(now.contains_key(key@));
            assert(models@.contains_key(key@));
        }
        let shadow = models.remove(&found[j]);
        let lead = models.remove(key);
        if let Some(shadow) = shadow {
            if let Some(mut lead) = lead {
                fill_missing_fields(&mut lead, &shadow);
                models.insert(key.to_owned(), lead);
            }
        }
        proof {
            let e = fill_all(m[key@], m, s.take(j + 1));
            assert(now[k] == m[k]);
            assert(s.take(j + 1) =~= s.take(j as int).push(k));
            seqs::lemma_push_contains(s.take(j as int), k);
            let target = m.remove_keys(s.take(j + 1).to_set()).insert(key@, e);
            assert forall|x: Seq<char>| entries(models@).contains_key(x) == target.contains_key(
                x,
            ) by {
                assert(s.take(j + 1).to_set().contains(x) == s.take(j + 1).contains(x));
                assert(s.take(j as int).to_set().contains(x) == s.take(j as int).contains(x));
                assert(now.contains_key(x) == (x == key@ || m.contains_key(x) && !s.take(
                    j as int,
                ).contains(x)));
            }
            assert forall|x: Seq<char>| #[trigger]
                target.contains_key(x) implies entries(models@)[x] == target[x] by {
                assert(entries(models@).contains_key(x));
                if x != key@ {
                    assert(!s.take(j as int).to_set().contains(x));
                    assert(now[x] == m[x]);
                    assert(entries(models@)[x] == now[x]);
                } else {
                    assert(now[x] == fill_all(m[key@], m, s.take(j as int)));
                    assert(entries(models@)[x] == filled(now[x], now[k]));
                }
            }
            assert(entries(models@) =~= target);
        }
        j += 1;
    }
    proof {
        assert(s.take(s.len() as int) =~= s);
    }
}

/// The keys of the entries that `key` shadows, in key order.
fn shadow_keys(
    models: &StringMap<ModelCatalogEntry>,
    operator_keys: &Vec<String>,
    key: &str,
    model: &str,
) -> (r: Vec<String>)
    ensures
        string_map::strictly_sorted(models.pairs()),
        r.deep_view() == shadows(entries(models@), operator_keys.deep_view(), key@, model@),
{
    let ghost m = entries(models@);
    let ghost ops = operator_keys.deep_view();
    let ghost p = |k: Seq<char>| is_shadow(m, ops, key@, model@, k);
    let names = models.keys();
    let ghost all = names.deep_view();
    let n: usize = models.len();
    let mut r: Vec<String> = Vec::new();
    let mut i: usize = 0;
    proof {
        assert(m.dom() =~= models@.dom());
        seqs::lemma_filter_start(all, p);
        assert(r.deep_view() =~= Seq::empty());
    }
    while i < names.len()
        invariant
            i <= names@.len(),
            n == names@.len(),
            n == models.pairs().len(),
            m == entries(models@),
            ops == operator_keys.deep_view(),
            p == (|k: Seq<char>| is_shadow(m, ops, key@, model@, k)),
            all == names.deep_view(),
            string_map::strictly_sorted(models.pairs()),
            all == models.pairs().map_values(|e: (Seq<char>, ModelCatalogEntry)| e.0),
            r.deep_view() == all.take(i as int).filter(p),
        decreases names@.len() - i,
    {
        let ghost sofar = r.deep_view();
        proof {
            seqs::lemma_filter_step(all, i as int, p);
            string_map::lemma_pairs_map_at(models.pairs(), i as int);
            assert(all[i as int] == names@[i as int]@);
            assert(all[i as int] == models.pairs()[i as int].0);
        }
        if !text::same(names[i], key) && !rope::contains_string(operator_keys, names[i]) && opt_is(
            &models.value_at(i).model,
            model,
        ) {
            r.push(names[i].to_owned());
            proof {
                assert(r.deep_view() =~= sofar.push(all[i as int]));
            }
        }
        i += 1;
    }
    proof {
        seqs::lemma_filter_start(all, p);
    }
    r
}

/// The model that the entry `name` stands for, if it stands for another one.
pub open spec fn next_name(m: Map<Seq<char>, EntryView>, name: Seq<char>) -> Option<Seq<char>> {
    if m.contains_key(name) && m[name].model is Some && m[name].model != Some(name) {
        m[name].model
    } else {
        None
    }
}

/// The name at which the chain of entries from `name` ends, or the first name in it that was
/// `seen` before.
pub open spec fn chase(
    m: Map<Seq<char>, EntryView>,
    name: Seq<char>,
    seen: Set<Seq<char>>,
) -> Seq<char>
    decreases m.dom().difference(seen).len(),
    when m.dom().finite()
{
    if seen.contains(name) {
        name
    } else {
        match next_name(m, name) {
            None => name,
            Some(next) => {
                proof {
                    let d = m.dom().difference(seen);
                    vstd::set_lib::lemma_len_subset(d, m.dom());
                    assert(d.contains(name));
                    assert(m.dom().difference(seen.insert(name)) =~= d.remove(name));
                }
                chase(m, next, seen.insert(name))
            },
        }
    }
}

/// The value of the first of `s` that satisfies `p`.
pub open spec fn first_value<V>(
    s: Seq<(Seq<char>, V)>,
    p: spec_fn((Seq<char>, V)) -> bool,
) -> Option<V> {
    match seqs::find(s, p) {
        Some(i) => Some(s[i].1),
        None => None,
    }
}

/// Whether a model entry is meant by `name`: its key, its model or an alias.
pub open spec fn entry_is(e: (Seq<char>, ModelCatalogEntry), name: Seq<char>) -> bool {
    e.0 == name || is_named(e.1, name)
}

/// Whether a favorite is meant by `name`: its key or an alias.
pub open spec fn favorite_is(e: (Seq<char>, FavoriteConfig), name: Seq<char>) -> bool {
    e.0 == name || e.1.aliases.deep_view().contains(name)
}

impl ModelCatalogConfig {
    /// The provider `kind`: the one with that key; without it the first of that kind; without it
    /// the first with that alias.
    pub open spec fn provider_for(&self, kind: Seq<char>) -> Option<ProviderCatalogConfig> {
        if self.providers@.contains_key(kind) {
            Some(self.providers@[kind])
        } else {
            or(
                first_value(
                    self.providers.pairs(),
                    |e: (Seq<char>, ProviderCatalogConfig)| e.1.kind.deep_view() == Some(kind),
                ),
                first_value(
                    self.providers.pairs(),
                    |e: (Seq<char>, ProviderCatalogConfig)| e.1.aliases.deep_view().contains(kind),
                ),
            )
        }
    }

    /// Looks a provider up by key, then by kind, then by alias.
    pub fn provider(&self, provider_kind: &str) -> (r: Option<&ProviderCatalogConfig>)
        ensures
            match r {
                Some(p) => self.provider_for(provider_kind@) == Some(*p),
                None => self.provider_for(provider_kind@) is None,
            },
    {
        if let Some(p) = self.providers.get(provider_kind) {
            return Some(p);
        }
        let ghost all = self.providers.pairs();
        let ghost by_kind = |e: (Seq<char>, ProviderCatalogConfig)|
            e.1.kind.deep_view() == Some(provider_kind@);
        let ghost by_alias = |e: (Seq<char>, ProviderCatalogConfig)|
            e.1.aliases.deep_view().contains(provider_kind@);
        let n: usize = self.providers.len();
        let mut i: usize = 0;
        while i < n
            invariant
                i <= n,
                n == all.len(),
                all == self.providers.pairs(),
                by_kind == (|e: (Seq<char>, ProviderCatalogConfig)|
                    e.1.kind.deep_view() == Some(provider_kind@)),
                !self.providers@.contains_key(provider_kind@),
                forall|j: int| 0 <= j < i ==> !by_kind(#[trigger] all[j]),
            decreases n - i,
        {
            if opt_is(&self.providers.value_at(i).kind, provider_kind) {
                proof {
                    seqs::lemma_found(all, by_kind, i as int);
                }
                return Some(self.providers.value_at(i));
            }
            i += 1;
        }
        proof {
            seqs::lemma_not_found(all, by_kind);
        }
        let mut i: usize = 0;
        while i < n
            invariant
                i <= n,
                n == all.len(),
                all == self.providers.pairs(),
                by_alias == (|e: (Seq<char>, ProviderCatalogConfig)|
                    e.1.aliases.deep_view().contains(provider_kind@)),
                seqs::find(all, by_kind) is None,
                by_kind == (|e: (Seq<char>, ProviderCatalogConfig)|
                    e.1.kind.deep_view() == Some(provider_kind@)),
                !self.providers@.contains_key(provider_kind@),
                forall|j: int| 0 <= j < i ==> !by_alias(#[trigger] all[j]),
            decreases n - i,
        {
            if rope::contains_string(&self.providers.value_at(i).aliases, provider_kind) {
                proof {
                    seqs::lemma_found(all, by_alias, i as int);
                }
                return Some(self.providers.value_at(i));
            }
            i += 1;
        }
        proof {
            seqs::lemma_not_found(all, by_alias);
        }
        None
    }

    /// The key of the first model entry that `name` means.
    pub open spec fn key_for(&self, name: Seq<char>) -> Option<Seq<char>> {
        match seqs::find(
            self.models.pairs(),
            |e: (Seq<char>, ModelCatalogEntry)| entry_is(e, name),
        ) {
            Some(i) => Some(self.models.pairs()[i].0),
            None => None,
        }
    }

    /// The key of the first model entry whose key, model or alias is given.
    pub fn resolve_model_key(&self, model_or_alias: &str) -> (r: Option<&str>)
        ensures
            r.deep_view() == self.key_for(model_or_alias@),
    {
        let ghost p = self.models.pairs();
        let ghost f = |e: (Seq<char>, ModelCatalogEntry)| entry_is(e, model_or_alias@);
        let n: usize = self.models.len();
        let mut i: usize = 0;
        while i < n
            invariant
                i <= n,
                n == p.len(),
                p == self.models.pairs(),
                f == (|e: (Seq<char>, ModelCatalogEntry)| entry_is(e, model_or_alias@)),
                forall|j: int| 0 <= j < i ==> !f(#[trigger] p[j]),
            decreases n - i,
        {
            if text::same(self.models.key_at(i), model_or_alias) || has_name(
                self.models.value_at(i),
                model_or_alias,
            ) {
                proof {
                    seqs::lemma_found(p, f, i as int);
                }
                return Some(self.models.key_at(i).as_str());
            }
            i += 1;
        }
        proof {
            seqs::lemma_not_found(p, f);
        }
        None
    }

    /// Provider and model of the first favorite that `name` means.
    pub open spec fn selection_for(&self, name: Seq<char>) -> Option<(Seq<char>, Seq<char>)> {
        match first_value(
            self.favorites.pairs(),
            |e: (Seq<char>, FavoriteConfig)| favorite_is(e, name),
        ) {
            Some(f) => Some((f.provider@, f.model@)),
            None => None,
        }
    }

    /// Provider and model of the first favorite whose key or alias is `name`.
    pub fn resolve_selection_alias(&self, name: &str) -> (r: Option<(&str, &str)>)
        ensures
            match r {
                Some((provider, model)) => self.selection_for(name@) == Some((provider@, model@)),
                None => self.selection_for(name@) is None,
            },
    {
        let ghost p = self.favorites.pairs();
        let ghost f = |e: (Seq<char>, FavoriteConfig)| favorite_is(e, name@);
        let n: usize = self.favorites.len();
        let mut i: usize = 0;
        while i < n
            invariant
                i <= n,
                n == p.len(),
                p == self.favorites.pairs(),
                f == (|e: (Seq<char>, FavoriteConfig)| favorite_is(e, name@)),
                forall|j: int| 0 <= j < i ==> !f(#[trigger] p[j]),
            decreases n - i,
        {
            let fav = self.favorites.value_at(i);
            if text::same(self.favorites.key_at(i), name) || rope::contains_string(
                &fav.aliases,
                name,
            ) {
                proof {
                    seqs::lemma_found(p, f, i as int);
                }
                return Some((fav.provider.as_str(), fav.model.as_str()));
            }
            i += 1;
        }
        proof {
            seqs::lemma_not_found(p, f);
        }
        None
    }

    /// Follows the entries from `input` to the model that they stand for in the end. A name that is
    /// no key of the catalog is returned as it is. A chain that runs in a circle ends at the first
    /// name that comes again.
    pub fn resolve_model_name(&self, input: &str) -> (r: String)
        ensures
            r@ == chase(entries(self.models@), input@, Set::empty()),
    {
        let ghost m = entries(self.models@);
        let _n: usize = self.models.len();
        let mut name: String = input.to_owned();
        let mut seen: StringMap<()> = StringMap::new();
        proof {
            assert(m.dom() =~= self.models@.dom());
            assert(seen@.dom() =~= Set::empty());
        }
        while !seen.contains_key(&name)
            invariant_except_break
                m == entries(self.models@),
                m.dom().finite(),
                m.dom() == self.models@.dom(),
                chase(m, name@, seen@.dom()) == chase(m, input@, Set::empty()),
            ensures
                name@ == chase(m, input@, Set::empty()),
            decreases m.dom().difference(seen@.dom()).len(),
        {
            let next = match self.models.get(&name) {
                Some(e) => match &e.model {
                    Some(next) => if text::same(next, &name) {
                        None
                    } else {
                        Some(next.clone())
                    },
                    None => None,
                },
                None => None,
            };
            proof {
                assert(next.deep_view() == next_name(m, name@));
            }
            let next = match next {
                Some(next) => next,
                None => {
                    break;
                },
            };
            let ghost before = seen@.dom();
            seen.insert(name.clone(), ());
            proof {
                assert(seen@.dom() =~= before.insert(name@));
                let d = m.dom().difference(before);
                vstd::set_lib::lemma_len_subset(d, m.dom());
                assert(d.contains(name@));
                assert(m.dom().difference(before.insert(name@)) =~= d.remove(name@));
            }
            name = next;
        }
        name
    }

    /// Whether the favorite `fav` is for the provider `kind` and the model `model`, where provider
    /// and model may be given through the catalog.
    pub open spec fn is_favorite_for(
        &self,
        fav: FavoriteConfig,
        kind: Seq<char>,
        model: Seq<char>,
    ) -> bool {
        &&& fav.provider@ == kind || (self.provider_for(fav.provider@) is Some
            && self.provider_for(fav.provider@)->0.kind.deep_view() == Some(kind))
        &&& fav.model@ == model || self.key_for(model) == Some(fav.model@) || (
        self.models@.contains_key(fav.model@) && self.models@[fav.model@].model.deep_view() == Some(
            model,
        ))
    }

    fn favorite_matches(&self, fav: &FavoriteConfig, provider_kind: &str, model: &str) -> (r: bool)
        ensures
            r == self.is_favorite_for(*fav, provider_kind@, model@),
    {
        let provider_matches = text::same(&fav.provider, provider_kind) || match self.provider(
            &fav.provider,
        ) {
            Some(p) => opt_is(&p.kind, provider_kind),
            None => false,
        };
        if !provider_matches {
            return false;
        }
        if text::same(&fav.model, model) {
            return true;
        }
        let by_key = match self.resolve_model_key(model) {
            Some(key) => text::same(key, &fav.model),
            None => false,
        };
        by_key || match self.models.get(&fav.model) {
            Some(e) => opt_is(&e.model, model),
            None => false,
        }
    }

    /// The favorites for a provider and a model, by name and in the order of their names.
    pub fn favorites_for(&self, provider_kind: &str, model: &str) -> (r: Vec<
        (&str, &FavoriteConfig),
    >)
        ensures
            r@.len() == self.favorites.pairs().filter(
                |e: (Seq<char>, FavoriteConfig)|
                    self.is_favorite_for(e.1, provider_kind@, model@),
            ).len(),
            forall|i: int|
                0 <= i < r@.len() ==> ((#[trigger] r@[i]).0@, *r@[i].1)
                    == self.favorites.pairs().filter(
                    |e: (Seq<char>, FavoriteConfig)|
                        self.is_favorite_for(e.1, provider_kind@, model@),
                )[i],
    {
        let ghost p = self.favorites.pairs();
        let ghost f = |e: (Seq<char>, FavoriteConfig)|
            self.is_favorite_for(e.1, provider_kind@, model@);
        let n: usize = self.favorites.len();
        let mut r: Vec<(&str, &FavoriteConfig)> = Vec::new();
        let mut i: usize = 0;
        proof {
            seqs::lemma_filter_start(p, f);
        }
        while i < n
            invariant
                i <= n,
                n == p.len(),
                p == self.favorites.pairs(),
                f == (|e: (Seq<char>, FavoriteConfig)|
                    self.is_favorite_for(e.1, provider_kind@, model@)),
                r@.len() == p.take(i as int).filter(f).len(),
                forall|j: int|
                    0 <= j < r@.len() ==> ((#[trigger] r@[j]).0@, *r@[j].1) == p.take(
                        i as int,
                    ).filter(f)[j],
            decreases n - i,
        {
            proof {
                seqs::lemma_filter_step(p, i as int, f);
            }
            let fav = self.favorites.value_at(i);
            if self.favorite_matches(fav, provider_kind, model) {
                r.push((self.favorites.key_at(i).as_str(), fav));
            }
            i += 1;
        }
        proof {
            seqs::lemma_filter_start(p, f);
        }
        r
    }

    /// The keys of the rules that have no prefix and so apply to no model.
    pub fn prefixless_rules(&self) -> (r: Vec<&str>)
        ensures
            r.deep_view() == self.model_rules.pairs().filter(
                |e: (Seq<char>, ModelRuleConfig)| prefixes_of(e.1).len() == 0,
            ).map_values(|e: (Seq<char>, ModelRuleConfig)| e.0),
    {
        let ghost p = self.model_rules.pairs();
        let ghost f = |e: (Seq<char>, ModelRuleConfig)| prefixes_of(e.1).len() == 0;
        let ghost key = |e: (Seq<char>, ModelRuleConfig)| e.0;
        let n: usize = self.model_rules.len();
        let mut r: Vec<&str> = Vec::new();
        let mut i: usize = 0;
        proof {
            seqs::lemma_filter_start(p, f);
            assert(r.deep_view() =~= p.take(0).filter(f).map_values(key));
        }
        while i < n
            invariant
                i <= n,
                n == p.len(),
                p == self.model_rules.pairs(),
                f == (|e: (Seq<char>, ModelRuleConfig)| prefixes_of(e.1).len() == 0),
                key == (|e: (Seq<char>, ModelRuleConfig)| e.0),
                r.deep_view() == p.take(i as int).filter(f).map_values(key),
            decreases n - i,
        {
            let ghost sofar = r.deep_view();
            proof {
                seqs::lemma_filter_step(p, i as int, f);
            }
            let rule = self.model_rules.value_at(i);
            if rule.prefix.is_none() && rule.prefixes.len() == 0 {
                r.push(self.model_rules.key_at(i).as_str());
                proof {
                    let g = p.take(i as int).filter(f);
                    assert(r.deep_view() =~= sofar.push(p[i as int].0));
                    assert(g.push(p[i as int]).map_values(key) =~= g.map_values(key).push(
                        p[i as int].0,
                    ));
                }
            }
            i += 1;
        }
        proof {
            seqs::lemma_filter_start(p, f);
        }
        r
    }
}

/// A name that is no key of the catalog passes through unchanged.
pub proof fn law_raw_names_pass_through(m: Map<Seq<char>, EntryView>, name: Seq<char>)
    requires
        m.dom().finite(),
        !m.contains_key(name),
    ensures
        chase(m, name, Set::empty()) == name,
{
}

/// A chain of entries is followed to its end: the result stands for no other model, unless the
/// chain runs in a circle.
pub proof fn law_names_follow_chains(
    m: Map<Seq<char>, EntryView>,
    name: Seq<char>,
    seen: Set<Seq<char>>,
)
    requires
        m.dom().finite(),
    ensures
        next_name(m, chase(m, name, seen)) is None || chase_meets(m, name, seen),
    decreases m.dom().difference(seen).len(),
{
    if !seen.contains(name) {
        if let Some(next) = next_name(m, name) {
            let d = m.dom().difference(seen);
            vstd::set_lib::lemma_len_subset(d, m.dom());
            assert(d.contains(name));
            assert(m.dom().difference(seen.insert(name)) =~= d.remove(name));
            law_names_follow_chains(m, next, seen.insert(name));
        }
    }
}

/// The name that comes `n` entries behind `name`, or the end of the chain if that comes first.
pub open spec fn nth_name(m: Map<Seq<char>, EntryView>, name: Seq<char>, n: nat) -> Seq<char>
    decreases n,
{
    if n == 0 {
        name
    } else {
        match next_name(m, name) {
            None => name,
            Some(next) => nth_name(m, next, (n - 1) as nat),
        }
    }
}

/// Whether the `n` names from `name` on are distinct, none of them `seen`, and each followed by
/// another.
pub open spec fn runs_on(
    m: Map<Seq<char>, EntryView>,
    name: Seq<char>,
    n: nat,
    seen: Set<Seq<char>>,
) -> bool {
    &&& forall|i: nat|
        i < n ==> next_name(m, #[trigger] nth_name(m, name, i)) is Some && !seen.contains(
            nth_name(m, name, i),
        )
    &&& forall|i: nat, j: nat|
        i < j < n ==> #[trigger] nth_name(m, name, i) != #[trigger] nth_name(m, name, j)
}

/// A chain of `a` and then `b` entries.
proof fn lemma_nth_name_add(m: Map<Seq<char>, EntryView>, name: Seq<char>, a: nat, b: nat)
    ensures
        nth_name(m, nth_name(m, name, a), b) == nth_name(m, name, a + b),
    decreases a,
{
    if a > 0 {
        if let Some(next) = next_name(m, name) {
            lemma_nth_name_add(m, next, (a - 1) as nat, b);
            assert((a + b - 1) as nat == (a - 1) as nat + b);
        }
    }
}

proof fn lemma_runs_on_step(
    m: Map<Seq<char>, EntryView>,
    name: Seq<char>,
    n: nat,
    seen: Set<Seq<char>>,
    next: Seq<char>,
)
    requires
        next_name(m, name) == Some(next),
    ensures
        n > 0 && runs_on(m, name, n, seen) ==> runs_on(
            m,
            next,
            (n - 1) as nat,
            seen.insert(name),
        ),
        !seen.contains(name) && runs_on(m, next, n, seen.insert(name)) ==> runs_on(
            m,
            name,
            n + 1,
            seen,
        ),
{
    assert forall|i: nat| nth_name(m, next, i) == #[trigger] nth_name(m, name, i + 1) by {}
    assert(nth_name(m, name, 0) == name);
    if n > 0 && runs_on(m, name, n, seen) {
        let k = (n - 1) as nat;
        assert forall|i: nat| i < k implies next_name(m, #[trigger] nth_name(m, next, i)) is Some
            && !seen.insert(name).contains(nth_name(m, next, i)) by {
            assert(nth_name(m, next, i) == nth_name(m, name, i + 1));
            assert(nth_name(m, name, 0) != nth_name(m, name, i + 1));
        }
        assert forall|i: nat, j: nat| i < j < k implies #[trigger] nth_name(m, next, i)
            != #[trigger] nth_name(m, next, j) by {
            assert(nth_name(m, name, i + 1) != nth_name(m, name, j + 1));
        }
    }
    if !seen.contains(name) && runs_on(m, next, n, seen.insert(name)) {
        assert forall|i: nat| i < n + 1 implies next_name(m, #[trigger] nth_name(m, name, i)) is Some
            && !seen.contains(nth_name(m, name, i)) by {
            if i > 0 {
                assert(nth_name(m, name, i) == nth_name(m, next, (i - 1) as nat));
            }
        }
        assert forall|i: nat, j: nat| i < j < n + 1 implies #[trigger] nth_name(m, name, i)
            != #[trigger] nth_name(m, name, j) by {
            assert(nth_name(m, name, j) == nth_name(m, next, (j - 1) as nat));
            if i > 0 {
                assert(nth_name(m, name, i) == nth_name(m, next, (i - 1) as nat));
            } else {
                assert(seen.insert(name).contains(name));
            }
        }
    }
}

/// A chain that runs on for `n` names and then comes to one of them, or to one that was seen, ends
/// there.
proof fn lemma_chase_meets_at(
    m: Map<Seq<char>, EntryView>,
    name: Seq<char>,
    n: nat,
    seen: Set<Seq<char>>,
)
    requires
        m.dom().finite(),
        runs_on(m, name, n, seen),
        seen.contains(nth_name(m, name, n)) || exists|j: nat|
            j < n && #[trigger] nth_name(m, name, j) == nth_name(m, name, n),
    ensures
        chase(m, name, seen) == nth_name(m, name, n),
    decreases n,
{
    if n > 0 {
        assert(nth_name(m, name, 0) == name);
        let next = next_name(m, name)->0;
        let k = (n - 1) as nat;
        lemma_runs_on_step(m, name, n, seen, next);
        let end = nth_name(m, name, n);
        assert(end == nth_name(m, next, k));
        if !seen.contains(end) {
            let j = choose|j: nat| j < n && #[trigger] nth_name(m, name, j) == end;
            if j > 0 {
                assert(nth_name(m, next, (j - 1) as nat) == end);
            }
        }
        lemma_chase_meets_at(m, next, k, seen.insert(name));
    }
}

/// A chain runs on for some names, and ends at a name that is not followed by another or that came
/// before.
proof fn lemma_chase_end(m: Map<Seq<char>, EntryView>, name: Seq<char>, seen: Set<Seq<char>>) -> (n:
    nat)
    requires
        m.dom().finite(),
    ensures
        runs_on(m, name, n, seen),
        chase(m, name, seen) == nth_name(m, name, n),
        next_name(m, nth_name(m, name, n)) is None || seen.contains(nth_name(m, name, n))
            || exists|j: nat| j < n && #[trigger] nth_name(m, name, j) == nth_name(m, name, n),
    decreases m.dom().difference(seen).len(),
{
    if seen.contains(name) || next_name(m, name) is None {
        0
    } else {
        let next = next_name(m, name)->0;
        let d = m.dom().difference(seen);
        vstd::set_lib::lemma_len_subset(d, m.dom());
        assert(d.contains(name));
        assert(m.dom().difference(seen.insert(name)) =~= d.remove(name));
        let k = lemma_chase_end(m, next, seen.insert(name));
        lemma_runs_on_step(m, name, k, seen, next);
        let end = nth_name(m, next, k);
        assert(nth_name(m, name, k + 1) == end);
        if end == name {
            assert(nth_name(m, name, 0) == end);
        } else if !seen.contains(end) && next_name(m, end) is Some {
            let j = choose|j: nat| j < k && #[trigger] nth_name(m, next, j) == end;
            assert(nth_name(m, name, j + 1) == end);
        }
        k + 1
    }
}

/// A chain that runs in a circle ends at the first name that comes again.
pub proof fn law_circles_end_where_they_close(
    m: Map<Seq<char>, EntryView>,
    name: Seq<char>,
    j: nat,
    n: nat,
)
    requires
        m.dom().finite(),
        runs_on(m, name, n, Set::empty()),
        j < n,
        nth_name(m, name, n) == nth_name(m, name, j),
    ensures
        chase(m, name, Set::empty()) == nth_name(m, name, n),
{
    lemma_chase_meets_at(m, name, n, Set::empty());
}

/// A name that was resolved stays as it is when it is resolved again.
pub proof fn law_resolving_twice_changes_nothing(m: Map<Seq<char>, EntryView>, name: Seq<char>)
    requires
        m.dom().finite(),
    ensures
        chase(m, chase(m, name, Set::empty()), Set::empty()) == chase(m, name, Set::empty()),
{
    let n = lemma_chase_end(m, name, Set::empty());
    let end = nth_name(m, name, n);
    if next_name(m, end) is Some {
        let j = choose|j: nat| j < n && #[trigger] nth_name(m, name, j) == end;
        let k = (n - j) as nat;
        assert forall|i: nat| #[trigger] nth_name(m, end, i) == nth_name(m, name, j + i) by {
            lemma_nth_name_add(m, name, j, i);
        }
        assert forall|i: nat| i < k implies next_name(m, #[trigger] nth_name(m, end, i)) is Some by {
            assert(nth_name(m, end, i) == nth_name(m, name, j + i));
        }
        assert forall|a: nat, b: nat| a < b < k implies #[trigger] nth_name(m, end, a)
            != #[trigger] nth_name(m, end, b) by {
            assert(nth_name(m, name, j + a) != nth_name(m, name, j + b));
        }
        assert(nth_name(m, end, k) == nth_name(m, name, j + k));
        assert(nth_name(m, end, 0) == end);
        lemma_chase_meets_at(m, end, k, Set::empty());
    }
}

/// Whether the chain from `name` comes to a name that was seen before.
pub open spec fn chase_meets(
    m: Map<Seq<char>, EntryView>,
    name: Seq<char>,
    seen: Set<Seq<char>>,
) -> bool
    decreases m.dom().difference(seen).len(),
    when m.dom().finite()
{
    if seen.contains(name) {
        true
    } else {
        match next_name(m, name) {
            None => false,
            Some(next) => {
                proof {
                    let d = m.dom().difference(seen);
                    vstd::set_lib::lemma_len_subset(d, m.dom());
                    assert(d.contains(name));
                    assert(m.dom().difference(seen.insert(name)) =~= d.remove(name));
                }
                chase_meets(m, next, seen.insert(name))
            },
        }
    }
}

/// The keys, in order, of the table at `path` in the document `text`; none if the document does
/// not parse or there is no table at `path`.
pub uninterp spec fn toml_keys(text: Seq<char>, path: Seq<Seq<char>>) -> Option<Seq<Seq<char>>>;

/// Parses `text` with `toml::from_str` into a `toml::Value`, goes down to the value at `path` with
/// `toml::Value::get`, and lists the keys of the table there. What is claimed is only that the
/// keys depend on text and path alone.
#[verifier::external_body]
fn table_keys(text: &str, path: &Vec<String>) -> (r: Option<Vec<String>>)
    ensures
        r.deep_view() == toml_keys(text@, path.deep_view()),
{
    let value: toml::Value = toml::from_str(text).ok()?;
    let at = path.iter().try_fold(&value, |v, key| v.get(key.as_str()))?;
    Some(at.as_table()?.keys().cloned().collect())
}

/// Whether a top-level key looks like a table path that was quoted as a whole.
pub open spec fn is_mis_keyed(key: Seq<char>) -> bool {
    text::has_prefix(key, "models."@) || text::has_prefix(key, "model_rules."@)
}

/// Those of the top-level keys that look like a table path that was quoted as a whole.
pub fn mis_keyed_among(keys: &Vec<String>) -> (r: Vec<String>)
    ensures
        r.deep_view() == keys.deep_view().filter(|k: Seq<char>| is_mis_keyed(k)),
{
    let ghost all = keys.deep_view();
    let ghost p = |k: Seq<char>| is_mis_keyed(k);
    let mut r: Vec<String> = Vec::new();
    let mut i: usize = 0;
    proof {
        seqs::lemma_filter_start(all, p);
        assert(r.deep_view() =~= Seq::empty());
    }
    while i < keys.len()
        invariant
            i <= keys@.len(),
            all == keys.deep_view(),
            p == (|k: Seq<char>| is_mis_keyed(k)),
            r.deep_view() == all.take(i as int).filter(p),
        decreases keys@.len() - i,
    {
        let ghost sofar = r.deep_view();
        proof {
            seqs::lemma_filter_step(all, i as int, p);
            assert(all[i as int] == keys@[i as int]@);
        }
        if text::starts_with(&keys[i], "models.") || text::starts_with(&keys[i], "model_rules.") {
            r.push(keys[i].clone());
            proof {
                assert(r.deep_view() =~= sofar.push(all[i as int]));
            }
        }
        i += 1;
    }
    proof {
        seqs::lemma_filter_start(all, p);
    }
    r
}

/// The top-level keys of a catalog document that look like a table path that was quoted as a
/// whole: such a table is not an entry and is ignored.
pub fn mis_keyed_model_tables(text: &str) -> (r: Vec<String>)
    ensures
        r.deep_view() == (match toml_keys(text@, Seq::empty()) {
            Some(keys) => keys.filter(|k: Seq<char>| is_mis_keyed(k)),
            None => Seq::empty(),
        }),
{
    let root: Vec<String> = Vec::new();
    proof {
        assert(root.deep_view() =~= Seq::empty());
    }
    match table_keys(text, &root) {
        Some(keys) => mis_keyed_among(&keys),
        None => {
            let r: Vec<String> = Vec::new();
            proof {
                assert(r.deep_view() =~= Seq::empty());
            }
            r
        },
    }
}

/// A table of a document: its key, and for each of its keys whether the value is a table.
pub struct TableOutline {
    pub key: String,
    pub nested: Vec<(String, bool)>,
}

/// The dotted names among `tables`: of each table, the keys other than `pricing` that hold a table.
pub open spec fn dotted_in(key: Seq<char>, nested: Seq<(Seq<char>, bool)>) -> Seq<Seq<char>>
    decreases nested.len(),
{
    if nested.len() == 0 {
        Seq::empty()
    } else {
        let before = dotted_in(key, nested.drop_last());
        let (k, is_table) = nested.last();
        if is_table && k != "pricing"@ {
            before.push(key + "."@ + k)
        } else {
            before
        }
    }
}

/// The nested keys of `t` with whether each holds a table.
pub open spec fn nested_view(t: TableOutline) -> Seq<(Seq<char>, bool)> {
    t.nested@.map_values(|n: (String, bool)| (n.0@, n.1))
}

/// The dotted names of a table: its key and, after a dot, each key other than `pricing` that holds
/// a table.
pub fn dotted_names(t: &TableOutline) -> (r: Vec<String>)
    ensures
        r.deep_view() == dotted_in(t.key@, nested_view(*t)),
{
    let ghost all = nested_view(*t);
    let mut r: Vec<String> = Vec::new();
    let mut i: usize = 0;
    proof {
        assert(r.deep_view() =~= Seq::empty());
    }
    while i < t.nested.len()
        invariant
            i <= t.nested@.len(),
            all == nested_view(*t),
            r.deep_view() == dotted_in(t.key@, all.take(i as int)),
        decreases t.nested@.len() - i,
    {
        let ghost sofar = r.deep_view();
        proof {
            assert(all.take(i + 1).drop_last() =~= all.take(i as int));
            assert(all.take(i + 1).last() == all[i as int]);
        }
        let (k, is_table) = &t.nested[i];
        if *is_table && !text::same(k, "pricing") {
            let name = t.key.clone().concat(".").concat(k);
            r.push(name);
            proof {
                assert(r.deep_view() =~= sofar.push(t.key@ + "."@ + k@));
            }
        }
        i += 1;
    }
    proof {
        assert(all.take(all.len() as int) =~= all);
    }
    r
}

/// What the document says of the keys of the table at `path`: whether each holds a table.
pub open spec fn outline(text: Seq<char>, path: Seq<Seq<char>>, keys: Seq<Seq<char>>) -> Seq<
    (Seq<char>, bool),
> {
    keys.map_values(|k: Seq<char>| (k, toml_keys(text, path.push(k)) is Some))
}

fn make_path(a: &str, b: Option<&str>, c: Option<&str>) -> (r: Vec<String>)
    requires
        c is Some ==> b is Some,
    ensures
        r.deep_view() == (match b {
            None => seq![a@],
            Some(b) => match c {
                None => seq![a@, b@],
                Some(c) => seq![a@, b@, c@],
            },
        }),
{
    let mut r: Vec<String> = Vec::new();
    r.push(a.to_owned());
    if let Some(b) = b {
        r.push(b.to_owned());
        if let Some(c) = c {
            r.push(c.to_owned());
            proof {
                assert(r.deep_view() =~= seq![a@, b@, c@]);
            }
        } else {
            proof {
                assert(r.deep_view() =~= seq![a@, b@]);
            }
        }
    } else {
        proof {
            assert(r.deep_view() =~= seq![a@]);
        }
    }
    r
}

/// The outline of the entry `key` of a section, if it is a table.
fn entry_outline(text: &str, section: &str, key: &str) -> (r: Option<TableOutline>)
    ensures
        match r {
            Some(t) => toml_keys(text@, seq![section@, key@]) is Some && t.key@ == key@
                && nested_view(t) == outline(
                text@,
                seq![section@, key@],
                toml_keys(text@, seq![section@, key@])->0,
            ),
            None => toml_keys(text@, seq![section@, key@]) is None,
        },
{
    let keys = match table_keys(text, &make_path(section, Some(key), None)) {
        Some(keys) => keys,
        None => {
            return None;
        },
    };
    let ghost all = keys.deep_view();
    let ghost path = seq![section@, key@];
    let mut nested: Vec<(String, bool)> = Vec::new();
    let mut i: usize = 0;
    while i < keys.len()
        invariant
            i <= keys@.len(),
            all == keys.deep_view(),
            path == seq![section@, key@],
            nested@.len() == i,
            forall|j: int|
                0 <= j < i ==> (#[trigger] nested@[j]).0@ == all[j] && nested@[j].1 == (toml_keys(
                    text@,
                    path.push(all[j]),
                ) is Some),
        decreases keys@.len() - i,
    {
        let inner = table_keys(text, &make_path(section, Some(key), Some(&keys[i])));
        proof {
            assert(path.push(all[i as int]) =~= seq![section@, key@, all[i as int]]);
        }
        nested.push((keys[i].clone(), inner.is_some()));
        i += 1;
    }
    let t = TableOutline { key: key.to_owned(), nested };
    proof {
        assert(nested_view(t) =~= outline(text@, path, all));
    }
    Some(t)
}

/// The dotted names in a section of the document `text`, whose entries are `keys`.
pub open spec fn dotted_section(
    text: Seq<char>,
    section: Seq<char>,
    keys: Seq<Seq<char>>,
) -> Seq<(Seq<char>, Seq<char>)>
    decreases keys.len(),
{
    if keys.len() == 0 {
        Seq::empty()
    } else {
        let before = dotted_section(text, section, keys.drop_last());
        let path = seq![section, keys.last()];
        match toml_keys(text, path) {
            Some(inner) => before + dotted_in(keys.last(), outline(text, path, inner)).map_values(
                |n: Seq<char>| (section, n),
            ),
            None => before,
        }
    }
}

/// The dotted names in a section of the document `text`.
pub open spec fn dotted_of(text: Seq<char>, section: Seq<char>) -> Seq<(Seq<char>, Seq<char>)> {
    match toml_keys(text, seq![section]) {
        Some(keys) => dotted_section(text, section, keys),
        None => Seq::empty(),
    }
}

/// The pairs `v` by their contents.
pub open spec fn pairs_view(v: Seq<(String, String)>) -> Seq<(Seq<char>, Seq<char>)> {
    v.map_values(|p: (String, String)| (p.0@, p.1@))
}

fn push_dotted(text: &str, section: &str, out: &mut Vec<(String, String)>)
    ensures
        pairs_view(final(out)@) == pairs_view(old(out)@) + dotted_of(text@, section@),
{
    let ghost start = pairs_view(out@);
    let keys = match table_keys(text, &make_path(section, None, None)) {
        Some(keys) => keys,
        None => {
            proof {
                assert(start + Seq::<(Seq<char>, Seq<char>)>::empty() =~= start);
            }
            return;
        },
    };
    let ghost all = keys.deep_view();
    let mut i: usize = 0;
    proof {
        assert(start + Seq::<(Seq<char>, Seq<char>)>::empty() =~= start);
    }
    while i < keys.len()
        invariant
            i <= keys@.len(),
            all == keys.deep_view(),
            pairs_view(out@) == start + dotted_section(text@, section@, all.take(i as int)),
        decreases keys@.len() - i,
    {
        let ghost sofar = pairs_view(out@);
        proof {
            assert(all.take(i + 1).drop_last() =~= all.take(i as int));
            assert(all.take(i + 1).last() == keys@[i as int]@);
        }
        if let Some(t) = entry_outline(text, section, &keys[i]) {
            let names = dotted_names(&t);
            let ghost found = names.deep_view().map_values(|n: Seq<char>| (section@, n));
            let mut j: usize = 0;
            proof {
                assert(sofar + found.take(0) =~= sofar);
            }
            while j < names.len()
                invariant
                    j <= names@.len(),
                    found == names.deep_view().map_values(|n: Seq<char>| (section@, n)),
                    pairs_view(out@) == sofar + found.take(j as int),
                decreases names@.len() - j,
            {
                let ghost was = pairs_view(out@);
                out.push((section.to_owned(), names[j].clone()));
                proof {
                    assert(pairs_view(out@) =~= was.push((section@, names@[j as int]@)));
                    assert(found.take(j + 1) =~= found.take(j as int).push(found[j as int]));
                    assert(pairs_view(out@) =~= sofar + found.take(j + 1));
                }
                j += 1;
            }
            proof {
                assert(found.take(found.len() as int) =~= found);
                assert(start + dotted_section(text@, section@, all.take(i as int)) + found
                    =~= start + (dotted_section(text@, section@, all.take(i as int)) + found));
            }
        }
        i += 1;
    }
    proof {
        assert(all.take(all.len() as int) =~= all);
    }
}

/// The entries of a catalog document that were written with an unquoted dot and so are read as
/// nested tables: section and dotted name of each.
pub fn dotted_nested_model_entries(text: &str) -> (r: Vec<(String, String)>)
    ensures
        pairs_view(r@) == dotted_of(text@, "models"@) + dotted_of(text@, "model_rules"@),
{
    let mut out: Vec<(String, String)> = Vec::new();
    proof {
        assert(pairs_view(out@) =~= Seq::empty());
    }
    push_dotted(text, "models", &mut out);
    proof {
        assert(Seq::<(Seq<char>, Seq<char>)>::empty() + dotted_of(text@, "models"@) =~= dotted_of(
            text@,
            "models"@,
        ));
    }
    push_dotted(text, "model_rules", &mut out);
    out
}

/// The name of the generated catalog layer of a provider.
pub open spec fn generated_name(provider: Seq<char>) -> Seq<char> {
    "models.generated."@ + provider + ".toml"@
}

/// The name of the generated catalog layer of a provider, which stands beside the operator's
/// catalog.
pub fn generated_file_name(provider: &str) -> (r: String)
    ensures
        r@ == generated_name(provider@),
{
    "models.generated.".to_owned().concat(provider).concat(".toml")
}

/// Whether a file is a generated layer: one that is named for some provider.
pub open spec fn is_layer(name: Seq<char>) -> bool {
    exists|provider: Seq<char>| name == #[trigger] generated_name(provider)
}

/// Whether a file name is that of a generated layer.
pub fn is_generated_layer(file_name: &str) -> (r: bool)
    ensures
        r == is_layer(file_name@),
{
    let ghost a = "models.generated."@;
    let ghost b = ".toml"@;
    let ghost name = file_name@;
    match text::strip_prefix(file_name, "models.generated.") {
        Some(rest) => {
            let r = text::ends_with(rest, ".toml");
            proof {
                if r {
                    let provider = rest@.take(rest@.len() - b.len());
                    assert(name =~= generated_name(provider));
                }
                if is_layer(name) {
                    let provider = choose|provider: Seq<char>|
                        name == #[trigger] generated_name(provider);
                    assert(rest@ =~= provider + b);
                    assert(rest@.skip(rest@.len() - b.len()) =~= b);
                }
            }
            r
        },
        None => {
            proof {
                if is_layer(name) {
                    let provider = choose|provider: Seq<char>|
                        name == #[trigger] generated_name(provider);
                    assert(name.take(a.len() as int) =~= a);
                }
            }
            false
        },
    }
}

/// The operator's catalog in the directory of the user's configuration, if that is known.
pub fn default_config_path(config_dir: Option<&str>) -> (r: Option<String>)
    ensures
        match config_dir {
            Some(dir) => r.deep_view() == Some(config_path(dir@)),
            None => r is None,
        },
{
    match config_dir {
        Some(dir) => Some(paths::join(&paths::join(dir, "mu"), "models.toml")),
        None => None,
    }
}

/// The operator's catalog below the directory of the user's configuration.
pub open spec fn config_path(config_dir: Seq<char>) -> Seq<char> {
    paths::joined(paths::joined(config_dir, "mu"@), "models.toml"@)
}

/// The generated layer of a provider: the operator's catalog `operator_config` with the name of
/// the layer in place of its file name.
pub fn generated_path_for_provider(operator_config: &str, provider: &str) -> (r: String)
    ensures
        r@ == paths::renamed(operator_config@, generated_name(provider@)),
{
    paths::with_file_name(operator_config, &generated_file_name(provider))
}

/// The generated layer of a provider in the directory of the user's configuration, if that is
/// known.
pub fn default_generated_path_for_provider(config_dir: Option<&str>, provider: &str) -> (r: Option<
    String,
>)
    ensures
        match config_dir {
            Some(dir) => r.deep_view() == Some(
                paths::renamed(config_path(dir@), generated_name(provider@)),
            ),
            None => r is None,
        },
{
    match default_config_path(config_dir) {
        Some(path) => Some(generated_path_for_provider(&path, provider)),
        None => None,
    }
}

/// A generated layer stands beside the operator's catalog.
pub proof fn law_layers_stand_beside_the_catalog(config_dir: Seq<char>, provider: Seq<char>)
    ensures
        paths::renamed(config_path(config_dir), generated_name(provider)) == paths::joined(
            paths::joined(config_dir, "mu"@),
            generated_name(provider),
        ),
{
    reveal_strlit("mu");
    reveal_strlit("models.toml");
    assert("mu"@.len() == 2 && "mu"@[0] == 'm');
    assert("models.toml"@.len() == 11);
    paths::law_siblings_stand_in_one_directory(
        config_dir,
        "mu"@,
        "models.toml"@,
        generated_name(provider),
    );
}

/// The generated layers among the files of a directory, in order.
pub fn generated_layers_for(file_names: &Vec<String>) -> (r: Vec<String>)
    ensures
        r.deep_view() == string_map::sorted_keys(
            file_names.deep_view().to_set().filter(|n: Seq<char>| is_layer(n)),
        ),
        string_map::increasing(r.deep_view()),
        r.deep_view().to_set() == file_names.deep_view().to_set().filter(
            |n: Seq<char>| is_layer(n),
        ),
{
    string_map::sorted_where(file_names, is_generated_layer, Ghost(|n: Seq<char>| is_layer(n)))
}

/// The greatest number of output tokens for `model`; 4096 where the catalog does not say.
pub fn max_output_tokens_for_model(catalog: &ModelCatalogConfig, model: &str) -> (r: u32)
    ensures
        r == (match catalog.resolved(model@).max_output_tokens {
            Some(n) => n,
            None => 4096,
        }),
{
    catalog.resolve_model(model).max_output_tokens.unwrap_or(4096)
}

/// Whether `r` is the value that prevails: the upper one if it is there, else the lower one.
pub open spec fn prevails<A>(r: Option<A>, upper: Option<A>, lower: Option<A>) -> bool {
    &&& upper is Some ==> r == upper
    &&& upper is None ==> r == lower
}

/// Whether `r` is the list that prevails: the upper one if it holds anything, else the lower one.
pub open spec fn prevails_list<A>(r: Seq<A>, upper: Seq<A>, lower: Seq<A>) -> bool {
    &&& upper.len() > 0 ==> r == upper
    &&& upper.len() == 0 ==> r == lower
}

/// What the entry of a model states is the setting; where it states nothing, the rule's is. Only
/// the quirks of both count, those of the rule first.
pub proof fn law_entries_prevail_over_rules(rule: Option<ModelRuleConfig>, e: ModelCatalogEntry)
    ensures
        prevails(
            settings(rule, Some(e)).context_soft_limit,
            e.context_soft_limit,
            if rule is Some {
                rule->0.context_soft_limit
            } else {
                None
            },
        ),
        prevails(
            settings(rule, Some(e)).context_hard_limit,
            e.context_hard_limit,
            if rule is Some {
                rule->0.context_hard_limit
            } else {
                None
            },
        ),
        prevails(
            settings(rule, Some(e)).max_output_tokens,
            e.max_output_tokens,
            if rule is Some {
                rule->0.max_output_tokens
            } else {
                None
            },
        ),
        prevails(
            settings(rule, Some(e)).reasoning_in_output,
            e.reasoning_in_output,
            if rule is Some {
                rule->0.reasoning_in_output
            } else {
                None
            },
        ),
        prevails(
            settings(rule, Some(e)).temperature,
            e.temperature,
            if rule is Some {
                rule->0.temperature
            } else {
                None
            },
        ),
        prevails(
            settings(rule, Some(e)).top_p,
            e.top_p,
            if rule is Some {
                rule->0.top_p
            } else {
                None
            },
        ),
        prevails(
            settings(rule, Some(e)).presence_penalty,
            e.presence_penalty,
            if rule is Some {
                rule->0.presence_penalty
            } else {
                None
            },
        ),
        prevails(
            settings(rule, Some(e)).top_k,
            e.top_k,
            if rule is Some {
                rule->0.top_k
            } else {
                None
            },
        ),
        prevails(
            settings(rule, Some(e)).family,
            e.family.deep_view(),
            if rule is Some {
                rule->0.family.deep_view()
            } else {
                None
            },
        ),
        prevails(
            settings(rule, Some(e)).default_effort,
            e.default_effort.deep_view(),
            if rule is Some {
                rule->0.default_effort.deep_view()
            } else {
                None
            },
        ),
        prevails(
            settings(rule, Some(e)).system_prompt_addendum,
            e.system_prompt_addendum.deep_view(),
            if rule is Some {
                rule->0.system_prompt_addendum.deep_view()
            } else {
                None
            },
        ),
        prevails(
            settings(rule, Some(e)).pricing,
            e.pricing,
            if rule is Some {
                rule->0.pricing
            } else {
                None
            },
        ),
        prevails_list(
            settings(rule, Some(e)).effort_levels,
            e.effort_levels.deep_view(),
            if rule is Some {
                rule->0.effort_levels.deep_view()
            } else {
                Seq::empty()
            },
        ),
        settings(rule, Some(e)).label == e.label.deep_view(),
        settings(rule, Some(e)).aliases == e.aliases.deep_view(),
        forall|q: Seq<char>| #[trigger]
            settings(rule, Some(e)).quirks.contains(q) <==> e.quirks.deep_view().contains(q) || (
            rule is Some && rule->0.quirks.deep_view().contains(q)),
        rule is Some ==> text::has_list_prefix(
            settings(rule, Some(e)).quirks,
            rule->0.quirks.deep_view(),
        ),
{
    let base = if rule is Some {
        rule->0.quirks.deep_view()
    } else {
        Seq::empty()
    };
    law_merging_loses_and_repeats_nothing(base, e.quirks.deep_view());
    assert(e.aliases.deep_view().len() == 0 ==> e.aliases.deep_view() =~= Seq::empty());
}

/// Without an entry the settings are the rule's, and without a rule there are none.
pub proof fn law_rules_apply_without_an_entry(r: ModelRuleConfig)
    ensures
        settings(Some(r), None).context_soft_limit == r.context_soft_limit,
        settings(Some(r), None).context_hard_limit == r.context_hard_limit,
        settings(Some(r), None).max_output_tokens == r.max_output_tokens,
        settings(Some(r), None).reasoning_in_output == r.reasoning_in_output,
        settings(Some(r), None).temperature == r.temperature,
        settings(Some(r), None).top_p == r.top_p,
        settings(Some(r), None).presence_penalty == r.presence_penalty,
        settings(Some(r), None).top_k == r.top_k,
        settings(Some(r), None).pricing == r.pricing,
        settings(Some(r), None).family == r.family.deep_view(),
        settings(Some(r), None).default_effort == r.default_effort.deep_view(),
        settings(Some(r), None).system_prompt_addendum == r.system_prompt_addendum.deep_view(),
        settings(Some(r), None).effort_levels == r.effort_levels.deep_view(),
        settings(Some(r), None).quirks == r.quirks.deep_view(),
        settings(Some(r), None).label is None,
        settings(Some(r), None).aliases.len() == 0,
        settings(None, None).context_soft_limit is None,
        settings(None, None).context_hard_limit is None,
        settings(None, None).max_output_tokens is None,
        settings(None, None).reasoning_in_output is None,
        settings(None, None).temperature is None,
        settings(None, None).top_p is None,
        settings(None, None).presence_penalty is None,
        settings(None, None).top_k is None,
        settings(None, None).family is None,
        settings(None, None).default_effort is None,
        settings(None, None).system_prompt_addendum is None,
        settings(None, None).pricing is None,
        settings(None, None).label is None,
        settings(None, None).aliases.len() == 0,
        settings(None, None).effort_levels.len() == 0,
        settings(None, None).quirks.len() == 0,
{
}

/// Merged lists hold exactly the strings of both, begin with the first list, and repeat nothing
/// that was not repeated in it.
pub proof fn law_merging_loses_and_repeats_nothing(a: Seq<Seq<char>>, b: Seq<Seq<char>>)
    ensures
        forall|x: Seq<char>| #[trigger] merged(a, b).contains(x) <==> a.contains(x) || b.contains(x),
        text::has_list_prefix(merged(a, b), a),
        a.no_duplicates() ==> merged(a, b).no_duplicates(),
    decreases b.len(),
{
    if b.len() > 0 {
        let t = b.drop_last();
        law_merging_loses_and_repeats_nothing(a, t);
        let m = merged(a, t);
        seqs::lemma_push_contains(t, b.last());
        seqs::lemma_push_contains(m, b.last());
        assert(t.push(b.last()) =~= b);
        assert forall|x: Seq<char>| #[trigger] merged(a, b).contains(x) <==> a.contains(x)
            || b.contains(x) by {
            assert(m.contains(x) <==> a.contains(x) || t.contains(x));
        }
        assert(merged(a, b).take(a.len() as int) =~= m.take(a.len() as int));
    } else {
        assert(a.take(a.len() as int) =~= a);
    }
}

/// What an entry states it keeps when it is filled from another, and what it lacks it takes from
/// there, rate cards rate by rate.
pub proof fn law_filling_keeps_what_is_stated(dst: EntryView, src: EntryView)
    ensures
        prevails(filled(dst, src).model, dst.model, src.model),
        prevails(filled(dst, src).family, dst.family, src.family),
        prevails(filled(dst, src).label, dst.label, src.label),
        prevails(filled(dst, src).context_soft_limit, dst.context_soft_limit, src.context_soft_limit),
        prevails(filled(dst, src).context_hard_limit, dst.context_hard_limit, src.context_hard_limit),
        prevails(filled(dst, src).max_output_tokens, dst.max_output_tokens, src.max_output_tokens),
        prevails(filled(dst, src).reasoning_in_output, dst.reasoning_in_output, src.reasoning_in_output),
        prevails(filled(dst, src).default_effort, dst.default_effort, src.default_effort),
        prevails(filled(dst, src).temperature, dst.temperature, src.temperature),
        prevails(filled(dst, src).top_p, dst.top_p, src.top_p),
        prevails(filled(dst, src).presence_penalty, dst.presence_penalty, src.presence_penalty),
        prevails(filled(dst, src).top_k, dst.top_k, src.top_k),
        prevails(filled(dst, src).system_prompt_addendum, dst.system_prompt_addendum, src.system_prompt_addendum),
        prevails_list(filled(dst, src).aliases, dst.aliases, src.aliases),
        prevails_list(filled(dst, src).effort_levels, dst.effort_levels, src.effort_levels),
        prevails_list(filled(dst, src).quirks, dst.quirks, src.quirks),
        dst.pricing is Some && src.pricing is Some ==> prevails(
            filled(dst, src).pricing->0.input_per_mtok,
            dst.pricing->0.input_per_mtok,
            src.pricing->0.input_per_mtok,
        ),
        dst.pricing is Some && src.pricing is Some ==> prevails(
            filled(dst, src).pricing->0.output_per_mtok,
            dst.pricing->0.output_per_mtok,
            src.pricing->0.output_per_mtok,
        ),
        dst.pricing is Some && src.pricing is Some ==> prevails(
            filled(dst, src).pricing->0.cache_read_ratio,
            dst.pricing->0.cache_read_ratio,
            src.pricing->0.cache_read_ratio,
        ),
        dst.pricing is Some && src.pricing is Some ==> prevails(
            filled(dst, src).pricing->0.cache_write_5m_ratio,
            dst.pricing->0.cache_write_5m_ratio,
            src.pricing->0.cache_write_5m_ratio,
        ),
        dst.pricing is Some && src.pricing is Some ==> prevails(
            filled(dst, src).pricing->0.cache_write_1h_ratio,
            dst.pricing->0.cache_write_1h_ratio,
            src.pricing->0.cache_write_1h_ratio,
        ),
        dst.pricing is Some && src.pricing is Some ==> prevails(
            filled(dst, src).pricing->0.long_context,
            dst.pricing->0.long_context,
            src.pricing->0.long_context,
        ),
        dst.pricing is None ==> filled(dst, src).pricing == src.pricing,
        src.pricing is None ==> filled(dst, src).pricing == dst.pricing,
        dst.pricing is Some ==> filled(dst, src).pricing is Some,
{
}

/// Whether two characters are the same but for the case of an ASCII letter.
pub open spec fn same_letter(a: char, b: char) -> bool {
    a == b || (65 <= a as int <= 90 && b as int == a as int + 32) || (65 <= b as int <= 90
        && a as int == b as int + 32)
}

/// Whether a name begins with a prefix, but for the case of ASCII letters.
pub open spec fn starts_like(model: Seq<char>, prefix: Seq<char>) -> bool {
    prefix.len() <= model.len() && forall|i: int|
        0 <= i < prefix.len() ==> same_letter(#[trigger] model[i], prefix[i])
}

/// Whether a rule states a prefix.
pub open spec fn states_prefix(rule: ModelRuleConfig, prefix: Seq<char>) -> bool {
    rule.prefix.deep_view() == Some(prefix) || rule.prefixes.deep_view().contains(prefix)
}

proof fn lemma_same_letter(a: char, b: char)
    ensures
        same_letter(a, b) <==> text::lower_char(a) == text::lower_char(b),
{
    if 65 <= a as u32 <= 90 {
        assert(text::lower_char(a) as int == a as int + 32);
    }
    if 65 <= b as u32 <= 90 {
        assert(text::lower_char(b) as int == b as int + 32);
    }
    assert(a as int == b as int ==> a == b);
}

proof fn lemma_begins(model: Seq<char>, prefix: Seq<char>)
    ensures
        begins(model, prefix) <==> starts_like(model, prefix),
{
    let a = text::lower_view(model);
    let b = text::lower_view(prefix);
    if starts_like(model, prefix) {
        assert forall|i: int| 0 <= i < b.len() implies a[i] == b[i] by {
            assert(same_letter(model[i], prefix[i]));
        }
        assert(a.take(b.len() as int) =~= b);
    }
    if begins(model, prefix) {
        assert forall|i: int| 0 <= i < prefix.len() implies same_letter(
            #[trigger] model[i],
            prefix[i],
        ) by {
            assert(a.take(b.len() as int)[i] == b[i]);
            assert(text::lower_char(model[i]) == text::lower_char(prefix[i]));
            lemma_same_letter(model[i], prefix[i]);
        }
    }
}

/// The length that counts for a rule is that of a prefix that fits, and no prefix that fits is
/// longer.
pub proof fn law_longest_prefix_fits(prefixes: Seq<Seq<char>>, model: Seq<char>)
    ensures
        longest(prefixes, model) is Some <==> exists|i: int|
            0 <= i < prefixes.len() && starts_like(model, #[trigger] prefixes[i]),
        longest(prefixes, model) is Some ==> exists|i: int|
            0 <= i < prefixes.len() && starts_like(model, #[trigger] prefixes[i])
                && text::byte_len_view(prefixes[i]) == longest(prefixes, model)->0,
        forall|i: int|
            0 <= i < prefixes.len() && starts_like(model, #[trigger] prefixes[i])
                ==> text::byte_len_view(prefixes[i]) <= longest(prefixes, model)->0,
    decreases prefixes.len(),
{
    if prefixes.len() > 0 {
        let t = prefixes.drop_last();
        let n = prefixes.len() - 1;
        law_longest_prefix_fits(t, model);
        lemma_begins(model, prefixes.last());
        assert(prefixes[n] == prefixes.last());
        assert forall|i: int|
            0 <= i < prefixes.len() && starts_like(model, #[trigger] prefixes[i]) implies
            text::byte_len_view(prefixes[i]) <= longest(prefixes, model)->0 && longest(
            prefixes,
            model,
        ) is Some by {
            if i < n {
                assert(t[i] == prefixes[i]);
            }
        }
        if longest(t, model) is Some {
            let i = choose|i: int|
                0 <= i < t.len() && starts_like(model, #[trigger] t[i]) && text::byte_len_view(t[i])
                    == longest(t, model)->0;
            assert(prefixes[i] == t[i]);
        }
    }
}

/// The rule for a model has the longest prefix of all that fit the model: it fits itself, and no
/// fitting prefix of any rule is longer. There is a rule exactly if some rule has a prefix that
/// fits.
pub proof fn law_the_longest_prefix_rules(catalog: &ModelCatalogConfig, model: Seq<char>)
    ensures
        catalog.rule_for(model) is Some <==> exists|j: int, p: Seq<char>|
            0 <= j < catalog.model_rules.pairs().len() && #[trigger] states_prefix(
                catalog.model_rules.pairs()[j].1,
                p,
            ) && starts_like(model, p),
        catalog.rule_for(model) matches Some(rule) ==> {
            &&& exists|j: int|
                0 <= j < catalog.model_rules.pairs().len() && rule
                    == (#[trigger] catalog.model_rules.pairs()[j]).1
            &&& exists|q: Seq<char>| #[trigger]
                states_prefix(rule, q) && starts_like(model, q) && forall|j: int, p: Seq<char>|
                    0 <= j < catalog.model_rules.pairs().len() && #[trigger] states_prefix(
                        catalog.model_rules.pairs()[j].1,
                        p,
                    ) && starts_like(model, p) ==> text::byte_len_view(p) <= text::byte_len_view(q)
        },
{
    let rules = catalog.model_rules.pairs();
    lemma_best_rule_applies(rules, model);
    assert forall|j: int, p: Seq<char>|
        0 <= j < rules.len() && #[trigger] states_prefix(rules[j].1, p) && starts_like(
            model,
            p,
        ) implies longest(prefixes_of(rules[j].1), model) is Some && text::byte_len_view(p)
        <= longest(prefixes_of(rules[j].1), model)->0 && catalog.rule_for(model) is Some
        && text::byte_len_view(p) <= longest(
        prefixes_of(catalog.rule_for(model)->0),
        model,
    )->0 by {
        let all = prefixes_of(rules[j].1);
        lemma_stated(rules[j].1, p);
        let i = choose|i: int| 0 <= i < all.len() && all[i] == p;
        law_longest_prefix_fits(all, model);
        assert(starts_like(model, all[i]));
        law_best_rule_has_the_longest_prefix(rules, model, j);
    }
    if let Some(rule) = catalog.rule_for(model) {
        let b = best_rule(rules, model)->0;
        assert(rules[b].1 == rule);
        let all = prefixes_of(rule);
        law_longest_prefix_fits(all, model);
        let i = choose|i: int|
            0 <= i < all.len() && starts_like(model, #[trigger] all[i]) && text::byte_len_view(
                all[i],
            ) == longest(all, model)->0;
        lemma_stated(rule, all[i]);
        assert(all.contains(all[i]));
        assert(states_prefix(rules[b].1, all[i]));
    }
}

proof fn lemma_stated(rule: ModelRuleConfig, p: Seq<char>)
    ensures
        states_prefix(rule, p) <==> prefixes_of(rule).contains(p),
{
    let all = prefixes_of(rule);
    let more = rule.prefixes.deep_view();
    if rule.prefix is Some {
        if states_prefix(rule, p) {
            if rule.prefix.deep_view() == Some(p) {
                assert(all[0] == p);
            } else {
                let i = choose|i: int| 0 <= i < more.len() && more[i] == p;
                assert(all[i + 1] == p);
            }
        }
        if all.contains(p) {
            let i = choose|i: int| 0 <= i < all.len() && all[i] == p;
            if i > 0 {
                assert(more[i - 1] == p);
            }
        }
    }
}

/// The entry for a model is the first that has it as its model or among its aliases.
pub proof fn law_the_first_entry_of_a_name_counts(
    catalog: &ModelCatalogConfig,
    model: Seq<char>,
    i: int,
)
    requires
        -1 <= i < catalog.models.pairs().len(),
        i >= 0 ==> catalog.models.pairs()[i].1.model.deep_view() == Some(model)
            || catalog.models.pairs()[i].1.aliases.deep_view().contains(model),
        forall|j: int|
            0 <= j < (if i >= 0 {
                i
            } else {
                catalog.models.pairs().len() as int
            }) ==> (#[trigger] catalog.models.pairs()[j]).1.model.deep_view() != Some(model)
                && !catalog.models.pairs()[j].1.aliases.deep_view().contains(model),
    ensures
        catalog.entry_for(model) == if i >= 0 {
            Some(catalog.models.pairs()[i].1)
        } else {
            None
        },
{
    let p = catalog.models.pairs();
    let f = |e: (Seq<char>, ModelCatalogEntry)| is_named(e.1, model);
    if i >= 0 {
        assert forall|j: int| 0 <= j < i implies !f(#[trigger] p[j]) by {
            assert(p[j].1.model.deep_view() != Some(model));
        }
        seqs::lemma_found(p, f, i);
    } else {
        assert forall|j: int| 0 <= j < p.len() implies !f(#[trigger] p[j]) by {
            assert(p[j].1.model.deep_view() != Some(model));
        }
        seqs::lemma_not_found(p, f);
    }
}

/// What the catalog says about a model is what its entry states, and where that states nothing
/// what the rule with the longest prefix states.
pub proof fn law_models_are_resolved_by_entry_over_rule(
    catalog: &ModelCatalogConfig,
    model: Seq<char>,
)
    ensures
        catalog.resolved(model) == settings(catalog.rule_for(model), catalog.entry_for(model)),
        catalog.entry_for(model) matches Some(e) ==> {
            let r = catalog.resolved(model);
            &&& e.context_soft_limit is Some ==> r.context_soft_limit == e.context_soft_limit
            &&& e.context_hard_limit is Some ==> r.context_hard_limit == e.context_hard_limit
            &&& e.max_output_tokens is Some ==> r.max_output_tokens == e.max_output_tokens
            &&& e.pricing is Some ==> r.pricing == e.pricing
            &&& e.default_effort is Some ==> r.default_effort == e.default_effort.deep_view()
        },
        catalog.rule_for(model) matches Some(rule) ==> {
            let r = catalog.resolved(model);
            let e = catalog.entry_for(model);
            &&& e is None || e->0.context_soft_limit is None ==> r.context_soft_limit
                == rule.context_soft_limit
            &&& e is None || e->0.context_hard_limit is None ==> r.context_hard_limit
                == rule.context_hard_limit
            &&& e is None || e->0.max_output_tokens is None ==> r.max_output_tokens
                == rule.max_output_tokens
            &&& e is None || e->0.pricing is None ==> r.pricing == rule.pricing
        },
{
}

/// A provider is found by its key; where no key fits, by its kind; where no kind fits either, by
/// an alias; and else not at all. Of several the first counts.
pub proof fn law_providers_are_found_by_key_kind_and_alias(
    catalog: &ModelCatalogConfig,
    kind: Seq<char>,
    i: int,
)
    requires
        -1 <= i < catalog.providers.pairs().len(),
        !catalog.providers@.contains_key(kind),
    ensures
        i >= 0 && catalog.providers.pairs()[i].1.kind.deep_view() == Some(kind) && (forall|j: int|
            0 <= j < i ==> (#[trigger] catalog.providers.pairs()[j]).1.kind.deep_view() != Some(
                kind,
            )) ==> catalog.provider_for(kind) == Some(catalog.providers.pairs()[i].1),
        i >= 0 && catalog.providers.pairs()[i].1.aliases.deep_view().contains(kind) && (forall|
            j: int,
        |
            0 <= j < i ==> !(
            #[trigger] catalog.providers.pairs()[j]).1.aliases.deep_view().contains(kind)) && (
        forall|j: int|
            0 <= j < catalog.providers.pairs().len() ==> (
            #[trigger] catalog.providers.pairs()[j]).1.kind.deep_view() != Some(kind))
            ==> catalog.provider_for(kind) == Some(catalog.providers.pairs()[i].1),
        (forall|j: int|
            0 <= j < catalog.providers.pairs().len() ==> (
            #[trigger] catalog.providers.pairs()[j]).1.kind.deep_view() != Some(kind)
                && !catalog.providers.pairs()[j].1.aliases.deep_view().contains(kind))
            ==> catalog.provider_for(kind) is None,
{
    let p = catalog.providers.pairs();
    let by_kind = |e: (Seq<char>, ProviderCatalogConfig)| e.1.kind.deep_view() == Some(kind);
    let by_alias = |e: (Seq<char>, ProviderCatalogConfig)| e.1.aliases.deep_view().contains(kind);
    seqs::lemma_find(p, by_kind);
    seqs::lemma_find(p, by_alias);
    if i >= 0 && by_kind(p[i]) && forall|j: int| 0 <= j < i ==> !by_kind(#[trigger] p[j]) {
        seqs::lemma_found(p, by_kind, i);
    }
    if i >= 0 && by_alias(p[i]) && forall|j: int| 0 <= j < i ==> !by_alias(#[trigger] p[j]) {
        seqs::lemma_found(p, by_alias, i);
    }
    if forall|j: int| 0 <= j < p.len() ==> !by_kind(#[trigger] p[j]) {
        seqs::lemma_not_found(p, by_kind);
    }
    if forall|j: int| 0 <= j < p.len() ==> !by_alias(#[trigger] p[j]) {
        seqs::lemma_not_found(p, by_alias);
    }
}

/// A provider with the key that is asked for is found before all others.
pub proof fn law_a_provider_key_comes_first(catalog: &ModelCatalogConfig, kind: Seq<char>)
    requires
        catalog.providers@.contains_key(kind),
    ensures
        catalog.provider_for(kind) == Some(catalog.providers@[kind]),
{
}

/// A name means the first model entry that has it as its key, its model or an alias.
pub proof fn law_model_keys_are_found_by_key_model_and_alias(
    catalog: &ModelCatalogConfig,
    name: Seq<char>,
)
    ensures
        match catalog.key_for(name) {
            Some(key) => exists|i: int|
                {
                    let e = #[trigger] catalog.models.pairs()[i];
                    &&& 0 <= i < catalog.models.pairs().len()
                    &&& e.0 == key
                    &&& e.0 == name || e.1.model.deep_view() == Some(name)
                        || e.1.aliases.deep_view().contains(name)
                    &&& forall|j: int|
                        0 <= j < i ==> (#[trigger] catalog.models.pairs()[j]).0 != name
                            && catalog.models.pairs()[j].1.model.deep_view() != Some(name)
                            && !catalog.models.pairs()[j].1.aliases.deep_view().contains(name)
                },
            None => forall|j: int|
                0 <= j < catalog.models.pairs().len() ==> (#[trigger] catalog.models.pairs()[j]).0
                    != name && catalog.models.pairs()[j].1.model.deep_view() != Some(name)
                    && !catalog.models.pairs()[j].1.aliases.deep_view().contains(name),
        },
{
    let p = catalog.models.pairs();
    let f = |e: (Seq<char>, ModelCatalogEntry)| entry_is(e, name);
    seqs::lemma_find(p, f);
    match seqs::find(p, f) {
        Some(i) => {
            assert(f(p[i]));
            assert forall|j: int| 0 <= j < i implies (#[trigger] p[j]).0 != name
                && p[j].1.model.deep_view() != Some(name)
                && !p[j].1.aliases.deep_view().contains(name) by {
                assert(!f(p[j]));
            }
            let e = p[i];
        },
        None => {
            assert forall|j: int| 0 <= j < p.len() implies (#[trigger] p[j]).0 != name
                && p[j].1.model.deep_view() != Some(name)
                && !p[j].1.aliases.deep_view().contains(name) by {
                assert(!f(p[j]));
            }
        },
    }
}

/// A name selects provider and model of the first favorite that has it as its key or an alias.
pub proof fn law_selections_are_those_of_a_favorite(catalog: &ModelCatalogConfig, name: Seq<char>)
    ensures
        match catalog.selection_for(name) {
            Some((provider, model)) => exists|i: int|
                {
                    let e = #[trigger] catalog.favorites.pairs()[i];
                    &&& 0 <= i < catalog.favorites.pairs().len()
                    &&& e.1.provider@ == provider
                    &&& e.1.model@ == model
                    &&& e.0 == name || e.1.aliases.deep_view().contains(name)
                    &&& forall|j: int|
                        0 <= j < i ==> (#[trigger] catalog.favorites.pairs()[j]).0 != name
                            && !catalog.favorites.pairs()[j].1.aliases.deep_view().contains(name)
                },
            None => forall|j: int|
                0 <= j < catalog.favorites.pairs().len() ==> (
                #[trigger] catalog.favorites.pairs()[j]).0 != name
                    && !catalog.favorites.pairs()[j].1.aliases.deep_view().contains(name),
        },
{
    let p = catalog.favorites.pairs();
    let f = |e: (Seq<char>, FavoriteConfig)| favorite_is(e, name);
    seqs::lemma_find(p, f);
    match seqs::find(p, f) {
        Some(i) => {
            assert(f(p[i]));
            assert forall|j: int| 0 <= j < i implies (#[trigger] p[j]).0 != name
                && !p[j].1.aliases.deep_view().contains(name) by {
                assert(!f(p[j]));
            }
        },
        None => {
            assert forall|j: int| 0 <= j < p.len() implies (#[trigger] p[j]).0 != name
                && !p[j].1.aliases.deep_view().contains(name) by {
                assert(!f(p[j]));
            }
        },
    }
}

/// A favorite is for the provider and the model that it names itself. It is for no provider that
/// it neither names nor names an entry of that kind of, and for no model that is neither its own
/// name nor connected with that by an entry.
pub proof fn law_favorites_are_for_what_they_name(
    catalog: &ModelCatalogConfig,
    fav: FavoriteConfig,
    kind: Seq<char>,
    model: Seq<char>,
)
    ensures
        catalog.is_favorite_for(fav, fav.provider@, fav.model@),
        catalog.is_favorite_for(fav, kind, model) && fav.provider@ != kind ==> catalog.provider_for(
            fav.provider@,
        ) is Some && catalog.provider_for(fav.provider@)->0.kind.deep_view() == Some(kind),
        catalog.is_favorite_for(fav, kind, model) && fav.model@ != model && catalog.key_for(model)
            != Some(fav.model@) ==> catalog.models@.contains_key(fav.model@)
            && catalog.models@[fav.model@].model.deep_view() == Some(model),
        fav.provider@ == kind && catalog.models@.contains_key(fav.model@)
            && catalog.models@[fav.model@].model.deep_view() == Some(model)
            ==> catalog.is_favorite_for(fav, kind, model),
        fav.provider@ == kind && catalog.key_for(model) == Some(fav.model@)
            ==> catalog.is_favorite_for(fav, kind, model),
        fav.model@ == model && catalog.provider_for(fav.provider@) is Some && catalog.provider_for(
            fav.provider@,
        )->0.kind.deep_view() == Some(kind) ==> catalog.is_favorite_for(fav, kind, model),
{
}

/// A name stands for another exactly if it is a key whose entry names another model.
pub proof fn law_names_stand_for_the_model_of_their_entry(
    m: Map<Seq<char>, EntryView>,
    name: Seq<char>,
    other: Seq<char>,
)
    ensures
        next_name(m, name) == Some(other) <==> m.contains_key(name) && m[name].model == Some(other)
            && other != name,
        m.dom().finite() && m.contains_key(name) && m[name].model == Some(other)
            && !m.contains_key(other) ==> chase(m, name, Set::empty()) == other,
{
    if m.dom().finite() && m.contains_key(name) && m[name].model == Some(other) && !m.contains_key(
        other,
    ) {
        assert(next_name(m, name) == Some(other));
        let seen = Set::<Seq<char>>::empty().insert(name);
        assert(chase(m, other, seen) == other);
    }
}

/// A top-level key is taken for a mis-keyed table exactly if it is a section, a dot and more.
pub proof fn law_mis_keyed_tables_begin_with_a_section(key: Seq<char>, rest: Seq<char>)
    ensures
        is_mis_keyed("models."@ + rest),
        is_mis_keyed("model_rules."@ + rest),
        is_mis_keyed(key) ==> key == "models."@ + key.skip(7) || key == "model_rules."@ + key.skip(
            12,
        ),
{
    let a = "models."@;
    let b = "model_rules."@;
    reveal_strlit("models.");
    reveal_strlit("model_rules.");
    assert((a + rest).take(7) =~= a);
    assert((b + rest).take(12) =~= b);
    if is_mis_keyed(key) {
        if text::has_prefix(key, a) {
            assert(key =~= a + key.skip(7));
        } else {
            assert(key =~= b + key.skip(12));
        }
    }
}

/// The dotted names of a table are those of its keys that hold a table, but for `pricing`.
pub proof fn law_dotted_names_are_of_nested_tables(
    key: Seq<char>,
    nested: Seq<(Seq<char>, bool)>,
    name: Seq<char>,
)
    ensures
        dotted_in(key, nested).contains(name) <==> exists|i: int|
            0 <= i < nested.len() && (#[trigger] nested[i]).1 && nested[i].0 != "pricing"@ && name
                == key + "."@ + nested[i].0,
    decreases nested.len(),
{
    if nested.len() > 0 {
        let t = nested.drop_last();
        let n = nested.len() - 1;
        law_dotted_names_are_of_nested_tables(key, t, name);
        let before = dotted_in(key, t);
        seqs::lemma_push_contains(before, key + "."@ + nested.last().0);
        assert(nested[n] == nested.last());
        if dotted_in(key, t).contains(name) {
            let i = choose|i: int|
                0 <= i < t.len() && (#[trigger] t[i]).1 && t[i].0 != "pricing"@ && name == key
                    + "."@ + t[i].0;
            assert(nested[i] == t[i]);
        }
        if exists|i: int|
            0 <= i < nested.len() && (#[trigger] nested[i]).1 && nested[i].0 != "pricing"@ && name
                == key + "."@ + nested[i].0 {
            let i = choose|i: int|
                0 <= i < nested.len() && (#[trigger] nested[i]).1 && nested[i].0 != "pricing"@
                    && name == key + "."@ + nested[i].0;
            if i < n {
                assert(t[i] == nested[i]);
            }
        }
    }
}

/// A layer is named `models.generated.`, the provider and `.toml`, and the operator's catalog is
/// `mu/models.toml` below the directory of the configuration.
pub proof fn law_catalog_files_have_their_names(provider: Seq<char>, dir: Seq<char>)
    ensures
        text::has_prefix(generated_name(provider), "models.generated."@),
        text::has_suffix(generated_name(provider), provider + ".toml"@),
        generated_name(provider).len() == 17 + provider.len() + 5,
        text::has_suffix(config_path(dir), "mu/models.toml"@),
        text::has_prefix(config_path(dir), dir),
{
    reveal_strlit("models.generated.");
    reveal_strlit(".toml");
    reveal_strlit("mu/models.toml");
    reveal_strlit("mu");
    reveal_strlit("/");
    reveal_strlit("models.toml");
    let n = generated_name(provider);
    assert(n.take(17) =~= "models.generated."@);
    assert(n.skip(n.len() - (provider + ".toml"@).len()) =~= provider + ".toml"@);
    let c = config_path(dir);
    assert(c.skip(c.len() - 14) =~= "mu/models.toml"@);
    assert(c.take(dir.len() as int) =~= dir);
}

/// Resolving a model gives what its entry states, setting by setting, and what the rule for it
/// states where the entry is silent.
pub proof fn law_resolving_asks_the_entry_first(
    catalog: &ModelCatalogConfig,
    model: &str,
    r: ResolvedModelSettings,
    e: ModelCatalogEntry,
    rule: Option<ModelRuleConfig>,
)
    requires
        call_ensures(ModelCatalogConfig::resolve_model, (catalog, model), r),
        catalog.entry_for(model@) == Some(e),
        catalog.rule_for(model@) == rule,
    ensures
        e.context_soft_limit is Some ==> r.context_soft_limit == e.context_soft_limit,
        e.context_soft_limit is None && rule is Some ==> r.context_soft_limit == rule->0.context_soft_limit,
        e.context_soft_limit is None && rule is None ==> r.context_soft_limit is None,
        e.context_hard_limit is Some ==> r.context_hard_limit == e.context_hard_limit,
        e.context_hard_limit is None && rule is Some ==> r.context_hard_limit == rule->0.context_hard_limit,
        e.context_hard_limit is None && rule is None ==> r.context_hard_limit is None,
        e.max_output_tokens is Some ==> r.max_output_tokens == e.max_output_tokens,
        e.max_output_tokens is None && rule is Some ==> r.max_output_tokens == rule->0.max_output_tokens,
        e.max_output_tokens is None && rule is None ==> r.max_output_tokens is None,
        e.reasoning_in_output is Some ==> r.reasoning_in_output == e.reasoning_in_output,
        e.reasoning_in_output is None && rule is Some ==> r.reasoning_in_output == rule->0.reasoning_in_output,
        e.reasoning_in_output is None && rule is None ==> r.reasoning_in_output is None,
        e.temperature is Some ==> r.temperature == e.temperature,
        e.temperature is None && rule is Some ==> r.temperature == rule->0.temperature,
        e.temperature is None && rule is None ==> r.temperature is None,
        e.top_p is Some ==> r.top_p == e.top_p,
        e.top_p is None && rule is Some ==> r.top_p == rule->0.top_p,
        e.top_p is None && rule is None ==> r.top_p is None,
        e.presence_penalty is Some ==> r.presence_penalty == e.presence_penalty,
        e.presence_penalty is None && rule is Some ==> r.presence_penalty == rule->0.presence_penalty,
        e.presence_penalty is None && rule is None ==> r.presence_penalty is None,
        e.top_k is Some ==> r.top_k == e.top_k,
        e.top_k is None && rule is Some ==> r.top_k == rule->0.top_k,
        e.top_k is None && rule is None ==> r.top_k is None,
        e.pricing is Some ==> r.pricing == e.pricing,
        e.pricing is None && rule is Some ==> r.pricing == rule->0.pricing,
        e.pricing is None && rule is None ==> r.pricing is None,
        e.family is Some ==> r.family is Some && r.family->0@ == e.family->0@,
        e.family is None && rule is Some ==> r.family.deep_view() == rule->0.family.deep_view(),
        e.family is None && rule is None ==> r.family is None,
        e.default_effort is Some ==> r.default_effort is Some && r.default_effort->0@ == e.default_effort->0@,
        e.default_effort is None && rule is Some ==> r.default_effort.deep_view() == rule->0.default_effort.deep_view(),
        e.default_effort is None && rule is None ==> r.default_effort is None,
        e.system_prompt_addendum is Some ==> r.system_prompt_addendum is Some && r.system_prompt_addendum->0@ == e.system_prompt_addendum->0@,
        e.system_prompt_addendum is None && rule is Some ==> r.system_prompt_addendum.deep_view() == rule->0.system_prompt_addendum.deep_view(),
        e.system_prompt_addendum is None && rule is None ==> r.system_prompt_addendum is None,
        r.label.deep_view() == e.label.deep_view(),
{
    let v = r.deep_view();
    assert(v == settings(rule, Some(e)));
    law_entries_prevail_over_rules(rule, e);
}

/// The output limit of a model is what the catalog states, and 4096 tokens where it states none.
pub proof fn law_output_limits_have_a_default(
    catalog: &ModelCatalogConfig,
    model: &str,
    n: u32,
    r: ResolvedModelSettings,
)
    requires
        call_ensures(max_output_tokens_for_model, (catalog, model), n),
        call_ensures(ModelCatalogConfig::resolve_model, (catalog, model), r),
    ensures
        r.max_output_tokens is Some ==> n == r.max_output_tokens->0,
        r.max_output_tokens is None ==> n == 4096,
{
    assert(r.deep_view().max_output_tokens == r.max_output_tokens);
}

/// The favorites for a provider and a model are those of the catalog that are for them, under their
/// names.
pub proof fn law_favorites_are_found(
    catalog: &ModelCatalogConfig,
    provider: &str,
    model: &str,
    r: Vec<(&str, &FavoriteConfig)>,
    i: int,
    k: int,
)
    requires
        call_ensures(ModelCatalogConfig::favorites_for, (catalog, provider, model), r),
        0 <= i < catalog.favorites.pairs().len(),
        0 <= k < r@.len(),
    ensures
        catalog.is_favorite_for(*r@[k].1, provider@, model@),
        catalog.favorites.pairs().contains((r@[k].0@, *r@[k].1)),
        catalog.is_favorite_for(catalog.favorites.pairs()[i].1, provider@, model@) ==> exists|j: int|
            0 <= j < r@.len() && ((#[trigger] r@[j]).0@, *r@[j].1) == catalog.favorites.pairs()[i],
{
    let all = catalog.favorites.pairs();
    let p = |e: (Seq<char>, FavoriteConfig)| catalog.is_favorite_for(e.1, provider@, model@);
    let kept = all.filter(p);
    seqs::lemma_filter_contains(all, p);
    assert((r@[k].0@, *r@[k].1) == kept[k]);
    assert(kept.contains(kept[k]));
    assert(p(kept[k]));
    if p(all[i]) {
        assert(all.contains(all[i]));
        assert(kept.contains(all[i]));
        let j = choose|j: int| 0 <= j < kept.len() && kept[j] == all[i];
        assert((r@[j].0@, *r@[j].1) == kept[j]);
    }
}

/// A rule is listed as one without a prefix exactly if it states none.
pub proof fn law_rules_without_a_prefix_are_listed(
    catalog: &ModelCatalogConfig,
    r: Vec<&str>,
    name: Seq<char>,
)
    requires
        call_ensures(ModelCatalogConfig::prefixless_rules, (catalog,), r),
    ensures
        r.deep_view().contains(name) <==> exists|i: int|
            0 <= i < catalog.model_rules.pairs().len() && (
            #[trigger] catalog.model_rules.pairs()[i]).0 == name
                && catalog.model_rules.pairs()[i].1.prefix is None
                && catalog.model_rules.pairs()[i].1.prefixes@.len() == 0,
{
    let all = catalog.model_rules.pairs();
    let p = |e: (Seq<char>, ModelRuleConfig)| prefixes_of(e.1).len() == 0;
    let g = |e: (Seq<char>, ModelRuleConfig)| e.0;
    let kept = all.filter(p);
    let names = kept.map_values(g);
    seqs::lemma_filter_contains(all, p);
    if names.contains(name) {
        let k = choose|k: int| 0 <= k < names.len() && names[k] == name;
        assert(kept.contains(kept[k]));
        let i = choose|i: int| 0 <= i < all.len() && all[i] == kept[k];
        assert(p(all[i]));
        assert(all[i].1.prefixes.deep_view().len() == all[i].1.prefixes@.len());
    }
    if exists|i: int|
        0 <= i < all.len() && (#[trigger] all[i]).0 == name && all[i].1.prefix is None
            && all[i].1.prefixes@.len() == 0 {
        let i = choose|i: int|
            0 <= i < all.len() && (#[trigger] all[i]).0 == name && all[i].1.prefix is None
                && all[i].1.prefixes@.len() == 0;
        assert(all[i].1.prefixes.deep_view().len() == 0);
        assert(p(all[i]));
        assert(all.contains(all[i]));
        assert(kept.contains(all[i]));
        let k = choose|k: int| 0 <= k < kept.len() && kept[k] == all[i];
        assert(names[k] == name);
    }
}

/// The mis-keyed tables of a text are those of its top-level keys that begin with a section and a
/// dot; a text that cannot be read has none.
pub proof fn law_mis_keyed_tables_are_found(
    text: &str,
    r: Vec<String>,
    keys: Seq<Seq<char>>,
    key: Seq<char>,
)
    requires
        call_ensures(mis_keyed_model_tables, (text,), r),
    ensures
        toml_keys(text@, Seq::empty()) is None ==> r@.len() == 0,
        toml_keys(text@, Seq::empty()) == Some(keys) ==> (r.deep_view().contains(key)
            <==> keys.contains(key) && (text::has_prefix(key, "models."@) || text::has_prefix(
            key,
            "model_rules."@,
        ))),
{
    assert(r.deep_view().len() == r@.len());
    if toml_keys(text@, Seq::empty()) == Some(keys) {
        seqs::lemma_filter_contains(keys, |k: Seq<char>| is_mis_keyed(k));
    }
}

/// Dotted entries are listed for both sections, those of models first, and each under its section.
pub proof fn law_dotted_entries_are_listed_by_section(
    text: &str,
    r: Vec<(String, String)>,
    i: int,
)
    requires
        call_ensures(dotted_nested_model_entries, (text,), r),
        0 <= i < r@.len(),
    ensures
        ({
            let n = dotted_of(text@, "models"@).len();
            &&& r@.len() == n + dotted_of(text@, "model_rules"@).len()
            &&& i < n ==> (r@[i].0@, r@[i].1@) == dotted_of(text@, "models"@)[i] && r@[i].0@
                == "models"@
            &&& i >= n ==> (r@[i].0@, r@[i].1@) == dotted_of(text@, "model_rules"@)[i - n]
                && r@[i].0@ == "model_rules"@
        }),
{
    let a = dotted_of(text@, "models"@);
    let b = dotted_of(text@, "model_rules"@);
    assert(pairs_view(r@)[i] == (r@[i].0@, r@[i].1@));
    lemma_dotted_has_section(text@, "models"@);
    lemma_dotted_has_section(text@, "model_rules"@);
    assert(pairs_view(r@).len() == r@.len());
    if i < a.len() {
        assert((a + b)[i] == a[i]);
    } else {
        assert((a + b)[i] == b[i - a.len()]);
    }
}

proof fn lemma_dotted_has_section(text: Seq<char>, section: Seq<char>)
    ensures
        forall|i: int|
            0 <= i < dotted_of(text, section).len() ==> (#[trigger] dotted_of(text, section)[i]).0
                == section,
{
    if let Some(keys) = toml_keys(text, seq![section]) {
        lemma_section_has_section(text, section, keys);
    }
}

proof fn lemma_section_has_section(text: Seq<char>, section: Seq<char>, keys: Seq<Seq<char>>)
    ensures
        forall|i: int|
            0 <= i < dotted_section(text, section, keys).len() ==> (
            #[trigger] dotted_section(text, section, keys)[i]).0 == section,
    decreases keys.len(),
{
    if keys.len() > 0 {
        lemma_section_has_section(text, section, keys.drop_last());
        let before = dotted_section(text, section, keys.drop_last());
        let path = seq![section, keys.last()];
        if let Some(inner) = toml_keys(text, path) {
            let more = dotted_in(keys.last(), outline(text, path, inner)).map_values(
                |n: Seq<char>| (section, n),
            );
            let all = dotted_section(text, section, keys);
            assert(all == before + more);
            assert forall|i: int| 0 <= i < all.len() implies (#[trigger] all[i]).0 == section by {
                if i < before.len() {
                    assert(all[i] == before[i]);
                } else {
                    assert(all[i] == more[i - before.len()]);
                }
            }
        }
    }
}

/// The catalog of an operator and the generated files stand beside each other below the directory
/// of the configuration, and nowhere without one.
pub proof fn law_catalog_files_stand_below_the_configuration(
    dir: &str,
    provider: &str,
    catalog: Option<String>,
    generated: Option<String>,
    none: Option<String>,
)
    requires
        call_ensures(default_config_path, (Some(dir),), catalog),
        call_ensures(default_generated_path_for_provider, (Some(dir), provider), generated),
        call_ensures(default_config_path, (None,), none),
    ensures
        catalog is Some,
        catalog->0@ == config_path(dir@),
        generated is Some,
        generated->0@ == paths::renamed(catalog->0@, generated_name(provider@)),
        none is None,
{
}

/// Whether an entry states every setting that another states.
pub open spec fn states_all(a: EntryView, b: EntryView) -> bool {
    &&& b.family is Some ==> a.family is Some
    &&& b.label is Some ==> a.label is Some
    &&& b.context_soft_limit is Some ==> a.context_soft_limit is Some
    &&& b.context_hard_limit is Some ==> a.context_hard_limit is Some
    &&& b.max_output_tokens is Some ==> a.max_output_tokens is Some
    &&& b.reasoning_in_output is Some ==> a.reasoning_in_output is Some
    &&& b.default_effort is Some ==> a.default_effort is Some
    &&& b.temperature is Some ==> a.temperature is Some
    &&& b.top_p is Some ==> a.top_p is Some
    &&& b.presence_penalty is Some ==> a.presence_penalty is Some
    &&& b.top_k is Some ==> a.top_k is Some
    &&& b.system_prompt_addendum is Some ==> a.system_prompt_addendum is Some
    &&& b.pricing is Some ==> a.pricing is Some
    &&& b.aliases.len() > 0 ==> a.aliases.len() > 0
    &&& b.effort_levels.len() > 0 ==> a.effort_levels.len() > 0
    &&& b.quirks.len() > 0 ==> a.quirks.len() > 0
}

/// An entry that takes over what others state, states everything that it or one of them stated
/// before.
pub proof fn law_filled_entries_state_everything(
    e: EntryView,
    m: Map<Seq<char>, EntryView>,
    keys: Seq<Seq<char>>,
    i: int,
)
    requires
        0 <= i < keys.len(),
    ensures
        states_all(fill_all(e, m, keys), m[keys[i]]),
        states_all(fill_all(e, m, keys), e),
    decreases keys.len(),
{
    let t = keys.drop_last();
    let before = fill_all(e, m, t);
    if i < t.len() {
        law_filled_entries_state_everything(e, m, t, i);
        assert(t[i] == keys[i]);
    } else if t.len() > 0 {
        law_filled_entries_state_everything(e, m, t, 0);
    }
}

/// Folding takes nothing away: an entry that is shadowed by the operator's entry for the same model
/// goes, and the operator's entry then states everything that it stated.
pub proof fn law_shadowed_entries_live_on_in_the_operators(
    m: Map<Seq<char>, EntryView>,
    ops: Seq<Seq<char>>,
    key: Seq<char>,
    model: Seq<char>,
    k: Seq<char>,
)
    requires
        m.dom().finite(),
        m.contains_key(k),
        k != key,
        !ops.contains(k),
        m[k].model == Some(model),
    ensures
        !absorbed(m, ops, key, model).contains_key(k),
        states_all(absorbed(m, ops, key, model)[key], m[k]),
        states_all(absorbed(m, ops, key, model)[key], m[key]),
{
    let s = shadows(m, ops, key, model);
    let all = string_map::sorted_keys(m.dom());
    string_map::lemma_sorted_keys_exist(m.dom());
    seqs::lemma_filter_contains(all, |k: Seq<char>| is_shadow(m, ops, key, model, k));
    assert(all.to_set().contains(k));
    assert(s.contains(k));
    let i = choose|i: int| 0 <= i < s.len() && s[i] == k;
    law_filled_entries_state_everything(m[key], m, s, i);
    assert(s.to_set().contains(k));
}

} // verus!
