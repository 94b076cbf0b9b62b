use mu_core::agent::{AssistantMessage, StopReason, Usage, UsageSemantics};
use mu_core::double::Double;
use mu_core::event_log::{EventActor, EventPayload, SessionEventLog};
use mu_core::model_catalog::{
    default_generated_path_for_provider, dotted_nested_model_entries, fold_operator_overrides,
    generated_layers_for, is_generated_layer,
    generated_path_for_provider, max_output_tokens_for_model, mis_keyed_model_tables, FavoriteConfig,
    LongContextConfig, ModelCatalogConfig, ModelCatalogEntry, ModelRuleConfig, PricingConfig,
    ProviderCatalogConfig, ResolvedModelSettings,
};
use mu_core::paths::with_file_name;
use mu_core::pricing::{
    for_model_in, is_api_equivalent_lane, refusal_in, CacheWrites, Charge, CostBasis, CostLane,
    LongContextTier, ModelPricing, PricingRefusal, SessionCost, TokenSplit,
};
use mu_core::protocol::ProviderStatusKind;
use mu_core::route_catalog::{
    build_entry, default_seeds, effort_config, effort_config_for, generated_provider, route_hash_input,
    GeneratedLayer, ProviderAvailability, RouteCatalog, Seed,
};
use mu_core::session_cost::{project, remainder, CostProjection};
use mu_core::session_status::{ProviderSnapshot, SessionStatus, StatusInputs};
use mu_core::spend::{SpendCeiling, SpendCeilingError, SpendConfig, SpendLanes, SpendMeter};
use mu_core::string_map::StringMap;

const SHIPPED: &str = r#"
[providers.anthropic_api]
kind = "anthropic_api"
[providers.anthropic_oauth]
kind = "anthropic_oauth"
[providers.openai_api]
kind = "openai_api"
usage_semantics = "openai_style"
[providers.openai_codex]
kind = "openai_codex"
usage_semantics = "openai_style"
[providers.openrouter]
kind = "openrouter"
[providers.ollama]
kind = "ollama"
priced = false
[providers.vllm]
kind = "vllm"
priced = false

[model_rules.opus]
prefix = "opus-"
max_output_tokens = 128000
pricing = { input_per_mtok = 5.0, output_per_mtok = 25.0, cache_read_ratio = 0.1, cache_write_5m_ratio = 1.25, cache_write_1h_ratio = 2.0 }
[model_rules.opus_4_first]
prefixes = ["opus-4-1", "opus-4-2025"]
pricing = { input_per_mtok = 15.0, output_per_mtok = 75.0, cache_read_ratio = 0.1, cache_write_5m_ratio = 1.25, cache_write_1h_ratio = 2.0 }
[model_rules.sonnet]
prefix = "sonnet-"
pricing = { input_per_mtok = 3.0, output_per_mtok = 15.0, cache_read_ratio = 0.1, cache_write_5m_ratio = 1.25, cache_write_1h_ratio = 2.0 }
[model_rules.sonnet_5]
prefix = "sonnet-5"
pricing = { input_per_mtok = 2.0, output_per_mtok = 10.0, cache_read_ratio = 0.1, cache_write_5m_ratio = 1.25, cache_write_1h_ratio = 2.0 }
[model_rules.haiku]
prefix = "haiku-"
pricing = { input_per_mtok = 1.0, output_per_mtok = 5.0, cache_read_ratio = 0.1, cache_write_5m_ratio = 1.25, cache_write_1h_ratio = 2.0 }
[model_rules.frontier]
prefixes = ["fable-5", "mythos-5"]
pricing = { input_per_mtok = 10.0, output_per_mtok = 50.0, cache_read_ratio = 0.1, cache_write_5m_ratio = 1.25, cache_write_1h_ratio = 2.0 }
[model_rules.frontier_5_1]
prefixes = ["fable-5-1", "mythos-5-1"]
pricing = { input_per_mtok = 10.0, output_per_mtok = 50.0, cache_read_ratio = 0.025, cache_write_5m_ratio = 1.25, cache_write_1h_ratio = 2.0 }
[model_rules.astra]
prefix = "gpt-6-astra"
pricing = { input_per_mtok = 10.0, output_per_mtok = 50.0, cache_read_ratio = 0.1, cache_write_5m_ratio = 1.25, cache_write_1h_ratio = 1.25, long_context = { prompt_threshold = 272000, input_mult = 2.0, output_mult = 1.5 } }
[model_rules.gpt_5_5]
prefix = "gpt-5.5"
pricing = { input_per_mtok = 5.0, output_per_mtok = 30.0, cache_read_ratio = 0.1 }
[model_rules.qwen36]
prefix = "qwen3.6:"
max_output_tokens = 16384
quirks = ["thinking_counts_against_max_tokens"]
effort_levels = ["off", "on"]
default_effort = "on"

[favorites.local_qwen36]
provider = "ollama"
model = "qwen3.6:35b-a3b-q8_0"
"#;

fn d(x: f64) -> Double {
    Double { bits: x.to_bits() }
}

fn f(x: Double) -> f64 {
    f64::from_bits(x.bits)
}

fn text_at(t: &toml::Value, key: &str) -> Option<String> {
    t.get(key).map(|v| v.as_str().expect("text").to_string())
}

fn texts_at(t: &toml::Value, key: &str) -> Vec<String> {
    match t.get(key) {
        Some(v) => {
            v.as_array().expect("array").iter().map(|s| s.as_str().unwrap().to_string()).collect()
        }
        None => Vec::new(),
    }
}

fn count_at(t: &toml::Value, key: &str) -> Option<u64> {
    t.get(key).map(|v| v.as_integer().expect("integer") as u64)
}

fn small_at(t: &toml::Value, key: &str) -> Option<u32> {
    count_at(t, key).map(|n| n as u32)
}

fn flag_at(t: &toml::Value, key: &str) -> Option<bool> {
    t.get(key).map(|v| v.as_bool().expect("bool"))
}

fn number_at(t: &toml::Value, key: &str) -> Option<Double> {
    t.get(key).map(|v| match v.as_integer() {
        Some(n) => d(n as f64),
        None => d(v.as_float().expect("number")),
    })
}

fn pricing_at(t: &toml::Value) -> Option<PricingConfig> {
    t.get("pricing").map(|p| PricingConfig {
        input_per_mtok: number_at(p, "input_per_mtok"),
        output_per_mtok: number_at(p, "output_per_mtok"),
        cache_read_ratio: number_at(p, "cache_read_ratio"),
        cache_write_5m_ratio: number_at(p, "cache_write_5m_ratio"),
        cache_write_1h_ratio: number_at(p, "cache_write_1h_ratio"),
        long_context: p.get("long_context").map(|l| LongContextConfig {
            prompt_threshold: count_at(l, "prompt_threshold").unwrap(),
            input_mult: number_at(l, "input_mult").unwrap(),
            output_mult: number_at(l, "output_mult").unwrap(),
        }),
    })
}

fn section<V>(root: &toml::Value, name: &str, read: fn(&toml::Value) -> V) -> StringMap<V> {
    let mut map = StringMap::new();
    if let Some(t) = root.get(name) {
        for (key, value) in t.as_table().expect("table") {
            map.insert(key.clone(), read(value));
        }
    }
    map
}

fn provider_of(t: &toml::Value) -> ProviderCatalogConfig {
    ProviderCatalogConfig {
        kind: text_at(t, "kind"),
        label: text_at(t, "label"),
        aliases: texts_at(t, "aliases"),
        requires_api_key: flag_at(t, "requires_api_key"),
        usage_semantics: text_at(t, "usage_semantics"),
        priced: flag_at(t, "priced"),
        quirks: texts_at(t, "quirks"),
        base_url: text_at(t, "base_url"),
        api_path: text_at(t, "api_path"),
    }
}

fn entry_of(t: &toml::Value) -> ModelCatalogEntry {
    ModelCatalogEntry {
        model: text_at(t, "model"),
        family: text_at(t, "family"),
        label: text_at(t, "label"),
        aliases: texts_at(t, "aliases"),
        context_soft_limit: count_at(t, "context_soft_limit"),
        context_hard_limit: count_at(t, "context_hard_limit"),
        max_output_tokens: small_at(t, "max_output_tokens"),
        reasoning_in_output: flag_at(t, "reasoning_in_output"),
        effort_levels: texts_at(t, "effort_levels"),
        default_effort: text_at(t, "default_effort"),
        quirks: texts_at(t, "quirks"),
        temperature: number_at(t, "temperature"),
        top_p: number_at(t, "top_p"),
        presence_penalty: number_at(t, "presence_penalty"),
        top_k: small_at(t, "top_k"),
        system_prompt_addendum: text_at(t, "system_prompt_addendum"),
        pricing: pricing_at(t),
    }
}

fn rule_of(t: &toml::Value) -> ModelRuleConfig {
    ModelRuleConfig {
        prefix: text_at(t, "prefix"),
        prefixes: texts_at(t, "prefixes"),
        family: text_at(t, "family"),
        context_soft_limit: count_at(t, "context_soft_limit"),
        context_hard_limit: count_at(t, "context_hard_limit"),
        max_output_tokens: small_at(t, "max_output_tokens"),
        reasoning_in_output: flag_at(t, "reasoning_in_output"),
        effort_levels: texts_at(t, "effort_levels"),
        default_effort: text_at(t, "default_effort"),
        quirks: texts_at(t, "quirks"),
        temperature: number_at(t, "temperature"),
        top_p: number_at(t, "top_p"),
        presence_penalty: number_at(t, "presence_penalty"),
        top_k: small_at(t, "top_k"),
        system_prompt_addendum: text_at(t, "system_prompt_addendum"),
        pricing: pricing_at(t),
    }
}

fn favorite_of(t: &toml::Value) -> FavoriteConfig {
    FavoriteConfig {
        provider: text_at(t, "provider").unwrap_or_default(),
        model: text_at(t, "model").unwrap_or_default(),
        label: text_at(t, "label"),
        aliases: texts_at(t, "aliases"),
        default_effort: text_at(t, "default_effort"),
        tools: t.get("tools").map(|_| texts_at(t, "tools")),
    }
}

fn catalog(text: &str) -> ModelCatalogConfig {
    let root: toml::Value = toml::Value::Table(text.parse::<toml::Table>().expect("catalog text"));
    ModelCatalogConfig {
        providers: section(&root, "providers", provider_of),
        models: section(&root, "models", entry_of),
        model_rules: section(&root, "model_rules", rule_of),
        favorites: section(&root, "favorites", favorite_of),
    }
}

fn shipped() -> ModelCatalogConfig {
    catalog(SHIPPED)
}

fn empty_entry() -> ModelCatalogEntry {
    entry_of(&toml::Value::Table(toml::Table::new()))
}

fn empty_favorite() -> FavoriteConfig {
    favorite_of(&toml::Value::Table(toml::Table::new()))
}

fn strings(names: &[&str]) -> Vec<String> {
    names.iter().map(|s| s.to_string()).collect()
}

/// The dollars of a split under its card.
fn dollars(card: &ModelPricing, split: TokenSplit) -> f64 {
    let rate = f(card.input_per_mtok);
    let writes = match split.writes {
        CacheWrites::Tiered { five_minutes, one_hour } => {
            five_minutes as f64 * rate * f(card.cache_write_5m_ratio)
                + one_hour as f64 * rate * f(card.cache_write_1h_ratio)
        }
        CacheWrites::Flat { tokens } => {
            tokens as f64
                * rate
                * f(card.cache_write_5m_ratio).min(f(card.cache_write_1h_ratio))
        }
    };
    let (in_mult, out_mult) = match split.surcharge {
        Some(t) => (f(t.input_mult), f(t.output_mult)),
        None => (1.0, 1.0),
    };
    ((split.fresh as f64 * rate + writes + split.reads as f64 * rate * f(card.cache_read_ratio))
        * in_mult
        + split.output as f64 * f(card.output_per_mtok) * out_mult)
        / 1e6
}

fn charge_usd(c: &Charge) -> f64 {
    let split = if c.per_request { c.card.cost(&c.usage) } else { c.card.base_rate_cost(&c.usage) };
    dollars(&c.card, split)
}

fn total(charges: &[Charge]) -> f64 {
    charges.iter().map(charge_usd).sum()
}

/// A card whose rates are read as plain numbers.
#[derive(Debug, Clone, Copy, PartialEq)]
struct Priced {
    input_per_mtok: f64,
    output_per_mtok: f64,
    cache_read_ratio: f64,
    cache_read_in_input: bool,
    cache_creation_in_input: bool,
    long_context: Option<LongContextTier>,
    card: ModelPricing,
}

impl Priced {
    fn of(card: ModelPricing) -> Priced {
        Priced {
            input_per_mtok: f(card.input_per_mtok),
            output_per_mtok: f(card.output_per_mtok),
            cache_read_ratio: f(card.cache_read_ratio),
            cache_read_in_input: card.cache_read_in_input,
            cache_creation_in_input: card.cache_creation_in_input,
            long_context: card.long_context,
            card,
        }
    }

    fn cost(&self, usage: &Usage) -> f64 {
        dollars(&self.card, self.card.cost(usage))
    }

    fn base_rate_cost(&self, usage: &Usage) -> f64 {
        dollars(&self.card, self.card.base_rate_cost(usage))
    }

    fn under_semantics(self, semantics: Option<&UsageSemantics>) -> Priced {
        Priced::of(self.card.under_semantics(semantics.copied()))
    }
}

fn priced(catalog: &ModelCatalogConfig, provider: &str, model: &str) -> Option<Priced> {
    for_model_in(catalog, provider, model).map(Priced::of)
}

fn card(provider: &str, model: &str) -> Option<Priced> {
    priced(&shipped(), provider, model)
}

fn usage(input: u64, output: u64) -> Usage {
    Usage { input_tokens: input, output_tokens: output, ..Default::default() }
}

fn ceiling(max: f64, lanes: SpendLanes) -> Result<SpendCeiling, SpendCeilingError> {
    SpendCeiling::new(d(max), &format!("{max}"), lanes)
}

/// A charge of the given dollars: a million tokens at that rate.
fn charge_of(usd: f64) -> Charge {
    Charge {
        card: ModelPricing {
            input_per_mtok: d(usd),
            output_per_mtok: d(0.0),
            cache_read_ratio: d(1.0),
            cache_write_5m_ratio: d(1.0),
            cache_write_1h_ratio: d(1.0),
            cache_read_in_input: false,
            cache_creation_in_input: false,
            long_context: None,
        },
        usage: usage(1_000_000, 0),
        per_request: true,
    }
}

fn spent_usd(m: &SpendMeter) -> f64 {
    total(m.spent())
}

fn uncounted_usd(m: &SpendMeter) -> f64 {
    total(m.uncounted())
}

fn reached(m: &SpendMeter) -> bool {
    m.reached(d(spent_usd(m)))
}

fn describe(m: &SpendMeter) -> String {
    m.describe(&format!("{:.4}", spent_usd(m)), &format!("{:.2}", f(m.ceiling().max_usd())))
}

fn status_usd(status: &SessionStatus) -> f64 {
    match &status.cost {
        Some(c) => charge_usd(c),
        None => 0.0,
    }
}

fn seeds() -> Vec<Seed> {
    vec![
        Seed {
            provider: "anthropic_api".to_string(),
            model: "opus-4-7".to_string(),
            soft: 200_000,
            hard: 1_000_000,
        },
        Seed {
            provider: "openai_codex".to_string(),
            model: "gpt-5.5".to_string(),
            soft: 1_000_000,
            hard: 1_000_000,
        },
    ]
}

fn seeded() -> RouteCatalog {
    RouteCatalog::from_catalog_with_availability(
        &shipped(),
        &shipped(),
        ProviderAvailability::all_configured(),
        &seeds(),
    )
}

#[test]
fn opus_47_pricing_lookup() {
    let p = card("anthropic_api", "opus-4-7").expect("opus 4-7 priced");
    assert_eq!(p.input_per_mtok, 5.00);
    assert_eq!(p.output_per_mtok, 25.00);
}

#[test]
fn model_prefix_match_tolerates_date_suffix() {
    assert!(card("anthropic_api", "opus-4-7-20260101").is_some());
    assert!(card("anthropic_api", "sonnet-4-6-20260301").is_some());
}

#[test]
fn unknown_pair_returns_none() {
    assert!(card("anthropic_api", "future-9").is_none());
    assert!(card("openai_codex", "gpt-4o").is_none());
    assert!(card("openai_api", "gpt-4o").is_none());
}

#[test]
fn openai_cached_input_is_a_subset_and_priced_once() {
    let p = card("openai_api", "gpt-6-astra").expect("priced");
    assert!(p.cache_read_in_input && p.cache_creation_in_input);
    let usage = Usage {
        input_tokens: 55_577,
        output_tokens: 1_200,
        cache_read_input_tokens: Some(37_632),
        cache_creation_input_tokens: None,
        cache_creation_5m_input_tokens: None,
        cache_creation_1h_input_tokens: None,
        reasoning_tokens: None,
    };
    let cost = p.cost(&usage);
    assert!((cost - 0.277_082).abs() < 1e-9, "{cost}");
    assert_eq!(card("openai_codex", "gpt-6-astra"), Some(p));
    assert_eq!(
        card("openai_api", "gpt-5.5").map(|c| (c.input_per_mtok, c.output_per_mtok)),
        Some((5.00, 30.00))
    );
    let cached_only = Usage {
        input_tokens: 100_000,
        output_tokens: 0,
        cache_read_input_tokens: Some(100_000),
        ..Default::default()
    };
    assert!((p.cost(&cached_only) - 0.10).abs() < 1e-9);
    let odd = Usage {
        input_tokens: 10,
        output_tokens: 0,
        cache_read_input_tokens: Some(50),
        ..Default::default()
    };
    assert!((p.cost(&odd) - 0.000_05).abs() < 1e-12);
    let a = card("anthropic_api", "opus-5").unwrap();
    assert!(!a.cache_read_in_input && !a.cache_creation_in_input);
    assert!(
        (a.cost(&usage) - (55_577.0 * 5.0 + 37_632.0 * 0.5 + 1_200.0 * 25.0) / 1e6).abs()
            < 1e-9
    );
}

#[test]
fn openai_cache_writes_are_priced_at_the_write_modifier() {
    let p = card("openai_api", "gpt-6-astra").expect("priced");
    let usage = Usage {
        input_tokens: 10_000,
        output_tokens: 0,
        cache_read_input_tokens: None,
        cache_creation_input_tokens: Some(10_000),
        ..Default::default()
    };
    assert!((p.cost(&usage) - 0.125).abs() < 1e-9, "{}", p.cost(&usage));
    let mixed = Usage {
        input_tokens: 10_000,
        output_tokens: 0,
        cache_read_input_tokens: Some(4_000),
        cache_creation_input_tokens: Some(5_000),
        ..Default::default()
    };
    assert!((p.cost(&mixed) - 0.0765).abs() < 1e-9, "{}", p.cost(&mixed));
}

#[test]
fn long_context_tier_applies_per_request_not_to_the_session_sum() {
    let p = card("openai_api", "gpt-6-astra").expect("priced");
    let big = Usage {
        input_tokens: 300_000,
        ..Default::default()
    };
    assert!((p.cost(&big) - 6.0).abs() < 1e-9, "{}", p.cost(&big));
    let half = Usage {
        input_tokens: 150_000,
        ..Default::default()
    };
    let two = p.cost(&half) + p.cost(&half);
    assert!((two - 3.0).abs() < 1e-9, "{two}");
    assert!((p.cost(&half.combine(half)) - 6.0).abs() < 1e-9);
    assert!((p.base_rate_cost(&half.combine(half)) - 3.0).abs() < 1e-9);
    assert!((p.base_rate_cost(&big) - 3.0).abs() < 1e-9);
    let at = Usage {
        input_tokens: 272_000,
        ..Default::default()
    };
    let past = Usage {
        input_tokens: 272_001,
        ..Default::default()
    };
    assert!((p.cost(&at) - 2.72).abs() < 1e-9);
    assert!(p.cost(&past) > 5.4);
    let mixed = Usage {
        input_tokens: 280_000,
        output_tokens: 1_000,
        cache_read_input_tokens: Some(200_000),
        ..Default::default()
    };
    assert!((p.cost(&mixed) - 2.075).abs() < 1e-9, "{}", p.cost(&mixed));
    let a = card("anthropic_api", "opus-4-8").expect("priced");
    assert!((a.cost(&half.combine(half)) - (a.cost(&half) + a.cost(&half))).abs() < 1e-12);
}

#[test]
fn registered_usage_semantics_outrank_the_card_flags() {
    let a = card("anthropic_api", "opus-4-8").expect("priced");
    assert!(!a.cache_read_in_input && !a.cache_creation_in_input);
    let o = a.under_semantics(Some(&UsageSemantics::openai_style()));
    assert!(o.cache_read_in_input && o.cache_creation_in_input);
    let back = o.under_semantics(Some(&UsageSemantics::anthropic_style()));
    assert!(!back.cache_read_in_input && !back.cache_creation_in_input);
    assert_eq!(a.under_semantics(None), a);
    let reads_only = UsageSemantics {
        cache_read_in_input: Some(true),
        cache_creation_in_input: Some(false),
        reasoning_in_output: None,
    };
    let r = a.under_semantics(Some(&reads_only));
    assert!(r.cache_read_in_input && !r.cache_creation_in_input);
    let usage = Usage {
        input_tokens: 1_000,
        output_tokens: 0,
        cache_read_input_tokens: Some(1_000),
        cache_creation_input_tokens: Some(1_000),
        ..Default::default()
    };
    assert!(
        (r.cost(&usage) - 0.00675).abs() < 1e-12,
        "{}",
        r.cost(&usage)
    );
    assert!(
        (a.cost(&usage) - 0.01175).abs() < 1e-12,
        "{}",
        a.cost(&usage)
    );
    let half = UsageSemantics {
        cache_read_in_input: None,
        cache_creation_in_input: Some(true),
        reasoning_in_output: None,
    };
    let h = a.under_semantics(Some(&half));
    assert!(!h.cache_read_in_input && h.cache_creation_in_input);
}

#[test]
fn cost_lane_folds_to_mixed_across_lanes() {
    let mut lane = CostLane::Billed;
    let mut any = false;
    for (api, want) in [
        (true, CostLane::ApiEquivalent),
        (true, CostLane::ApiEquivalent),
        (false, CostLane::Mixed),
        (true, CostLane::Mixed),
    ] {
        lane = lane.fold(api, any);
        any = true;
        assert_eq!(lane, want);
    }
    assert_eq!(CostLane::Billed.fold(false, false), CostLane::Billed);
    assert_eq!(CostLane::Billed.fold(false, true), CostLane::Billed);
    assert_eq!(CostLane::Billed.fold(true, true), CostLane::Mixed);
}

#[test]
fn subscription_lanes_price_at_the_api_card() {
    assert_eq!(
        card("anthropic_oauth", "opus-4-8"),
        card("anthropic_api", "opus-4-8")
    );
    assert!(card("anthropic_oauth", "opus-4-8").is_some());
    assert_eq!(
        card("openai_codex", "gpt-5.5"),
        card("openai_api", "gpt-5.5")
    );
    assert!(is_api_equivalent_lane("anthropic_oauth"));
    assert!(is_api_equivalent_lane("openai_codex"));
    assert!(!is_api_equivalent_lane("anthropic_api"));
    assert!(!is_api_equivalent_lane("openai_api"));
}

#[test]
fn retired_ids_keep_their_rate_card() {
    let rates = |model: &str| {
        let p = card("anthropic_api", model).unwrap_or_else(|| panic!("{model} priced"));
        (p.input_per_mtok, p.output_per_mtok)
    };
    assert_eq!(rates("opus-4-1-20250805"), (15.00, 75.00));
    assert_eq!(rates("opus-4-20250514"), (15.00, 75.00));
    assert_eq!(rates("sonnet-4-20250514"), (3.00, 15.00));
}

#[test]
fn four_x_ids_and_bare_family_fallbacks() {
    let rates = |model: &str| {
        let p = card("anthropic_api", model).unwrap_or_else(|| panic!("{model} priced"));
        (p.input_per_mtok, p.output_per_mtok)
    };
    assert_eq!(rates("opus-4-5-20251101"), (5.00, 25.00));
    assert_eq!(rates("sonnet-4-5-20250929"), (3.00, 15.00));
    assert_eq!(rates("haiku-4-5-20251001"), (1.00, 5.00));
    assert_eq!(rates("opus-4-9"), (5.00, 25.00));
    assert_eq!(rates("sonnet-4-7"), (3.00, 15.00));
    assert_eq!(rates("haiku-4-6"), (1.00, 5.00));
}

#[test]
fn gen_5_rows_and_the_fable_5_1_cache_read_ratio() {
    let rates = |model: &str| {
        let p = card("anthropic_api", model).unwrap_or_else(|| panic!("{model} priced"));
        (p.input_per_mtok, p.output_per_mtok, p.cache_read_ratio)
    };
    assert_eq!(rates("fable-5-1"), (10.00, 50.00, 0.025));
    assert_eq!(rates("fable-5-1-20261001"), (10.00, 50.00, 0.025));
    assert_eq!(rates("mythos-5-1"), (10.00, 50.00, 0.025));
    assert_eq!(rates("fable-5"), (10.00, 50.00, 0.10));
    assert_eq!(rates("mythos-5"), (10.00, 50.00, 0.10));
    assert_eq!(rates("opus-5"), (5.00, 25.00, 0.10));
    assert_eq!(rates("sonnet-5"), (2.00, 10.00, 0.10));
    assert_eq!(rates("opus-4-8"), (5.00, 25.00, 0.10));

    let reads = Usage {
        input_tokens: 0,
        output_tokens: 0,
        cache_creation_input_tokens: None,
        cache_read_input_tokens: Some(1_000_000),
        cache_creation_5m_input_tokens: None,
        cache_creation_1h_input_tokens: None,
        reasoning_tokens: None,
    };
    let cost = |model: &str| card("anthropic_api", model).unwrap().cost(&reads);
    assert!(
        (cost("fable-5-1") - 0.25).abs() < 1e-9,
        "{}",
        cost("fable-5-1")
    );
    assert!(
        (cost("fable-5") - 1.00).abs() < 1e-9,
        "{}",
        cost("fable-5")
    );
    assert!(
        (cost("opus-4-7") - 0.50).abs() < 1e-9,
        "{}",
        cost("opus-4-7")
    );
}

#[test]
fn calibration_session_3ff13d_within_one_cent_of_actual() {
    let usage = Usage {
        input_tokens: 35_419,
        output_tokens: 6_960,
        cache_creation_input_tokens: Some(21_772),
        cache_read_input_tokens: Some(58_084),
        cache_creation_5m_input_tokens: None,
        cache_creation_1h_input_tokens: None,
        reasoning_tokens: None,
    };
    let pricing = card("anthropic_api", "opus-4-7").unwrap();
    let cost = pricing.cost(&usage);
    assert!(
        (cost - 0.52).abs() < 0.05,
        "cost {cost} drifted from calibration anchor $0.52"
    );
}

#[test]
fn zero_usage_costs_zero() {
    let pricing = card("anthropic_api", "opus-4-7").unwrap();
    assert_eq!(pricing.cost(&Usage::default()), 0.0);
}

#[test]
fn missing_cache_fields_treated_as_zero() {
    let usage = Usage {
        input_tokens: 1_000_000,
        output_tokens: 100_000,
        cache_creation_input_tokens: None,
        cache_read_input_tokens: None,
        cache_creation_5m_input_tokens: None,
        cache_creation_1h_input_tokens: None,
        reasoning_tokens: None,
    };
    let pricing = card("anthropic_api", "opus-4-7").unwrap();
    assert!((pricing.cost(&usage) - 7.50).abs() < 1e-9);
}

#[test]
fn umq6_tier_split_uses_per_tier_rates() {
    let pricing = card("anthropic_api", "opus-4-7").unwrap();
    let in_rate = pricing.input_per_mtok;
    let usage = Usage {
        input_tokens: 0,
        output_tokens: 0,
        cache_read_input_tokens: None,
        cache_creation_input_tokens: Some(99_999),
        cache_creation_5m_input_tokens: Some(500_000),
        cache_creation_1h_input_tokens: Some(1_000_000),
        reasoning_tokens: None,
    };
    let cost = pricing.cost(&usage);
    let expected =
        (500_000_f64 * in_rate * 1.25 + 1_000_000_f64 * in_rate * 2.00) / 1_000_000.0;
    assert!(
        (cost - expected).abs() < 1e-9,
        "cost {cost} should be {expected} (tier rates applied)"
    );
}

#[test]
fn umq6_flat_fallback_uses_conservative_rate() {
    let pricing = card("anthropic_api", "opus-4-7").unwrap();
    let in_rate = pricing.input_per_mtok;
    let usage = Usage {
        input_tokens: 0,
        output_tokens: 0,
        cache_read_input_tokens: None,
        cache_creation_input_tokens: Some(1_000_000),
        cache_creation_5m_input_tokens: None,
        cache_creation_1h_input_tokens: None,
        reasoning_tokens: None,
    };
    let cost = pricing.cost(&usage);
    let expected = 1_000_000_f64 * in_rate * 1.25 / 1_000_000.0;
    assert!(
        (cost - expected).abs() < 1e-9,
        "cost {cost} should be {expected} (flat fallback at 1.25×)"
    );
}

#[test]
fn umq6_partial_tier_falls_back_to_flat() {
    let pricing = card("anthropic_api", "opus-4-7").unwrap();
    let in_rate = pricing.input_per_mtok;
    let usage_only_5m = Usage {
        input_tokens: 0,
        output_tokens: 0,
        cache_read_input_tokens: None,
        cache_creation_input_tokens: Some(1_000_000),
        cache_creation_5m_input_tokens: Some(400_000),
        cache_creation_1h_input_tokens: None,
        reasoning_tokens: None,
    };
    let cost = pricing.cost(&usage_only_5m);
    let expected = 1_000_000_f64 * in_rate * 1.25 / 1_000_000.0;
    assert!(
        (cost - expected).abs() < 1e-9,
        "partial breakdown should fall back to flat: cost {cost} ≠ {expected}"
    );
}

#[test]
fn umq6_partial_tier_none_some_1h_falls_back_to_flat() {
    let pricing = card("anthropic_api", "opus-4-7").unwrap();
    let in_rate = pricing.input_per_mtok;
    let usage_only_1h = Usage {
        input_tokens: 0,
        output_tokens: 0,
        cache_read_input_tokens: None,
        cache_creation_input_tokens: Some(1_000_000),
        cache_creation_5m_input_tokens: None,
        cache_creation_1h_input_tokens: Some(800_000),
        reasoning_tokens: None,
    };
    let cost = pricing.cost(&usage_only_1h);
    let expected = 1_000_000_f64 * in_rate * 1.25 / 1_000_000.0;
    assert!(
        (cost - expected).abs() < 1e-9,
        "(None, Some(1h)) should fall back to flat 1.25×: cost {cost} ≠ {expected}"
    );
}

#[test]
fn invalid_catalog_cards_price_as_unknown() {
    let load = |pricing: &str| -> ModelCatalogConfig {
        let toml = format!(
            "[providers.p]\nkind = \"p\"\n[models.m]\nmodel = \"m\"\n[models.m.pricing]\n{pricing}\n"
        );
        catalog(&toml)
    };
    assert!(priced(
        &load("input_per_mtok = 1.0\noutput_per_mtok = 2.0"),
        "p",
        "m"
    )
    .is_some());
    for bad in [
        "input_per_mtok = -1.0\noutput_per_mtok = 2.0",
        "input_per_mtok = nan\noutput_per_mtok = 2.0",
        "input_per_mtok = 1.0\noutput_per_mtok = inf",
        "input_per_mtok = 1.0\noutput_per_mtok = 2.0\ncache_read_ratio = 1.5",
        "input_per_mtok = 1.0\noutput_per_mtok = 2.0\ncache_read_ratio = -0.1",
        "input_per_mtok = 1.0\noutput_per_mtok = 2.0\nlong_context = { prompt_threshold = 1000, input_mult = 0.5, output_mult = 1.5 }",
        "input_per_mtok = 1.0\noutput_per_mtok = 2.0\nlong_context = { prompt_threshold = 0, input_mult = 2.0, output_mult = 1.5 }",
    ] {
        assert!(priced(&load(bad), "p", "m").is_none(), "{bad}");
    }
    assert!(priced(&load("input_per_mtok = 1.0"), "p", "m").is_none());
    let flat = Usage {
        cache_creation_input_tokens: Some(1_000_000),
        ..Default::default()
    };
    let split_1h = Usage {
        cache_creation_input_tokens: Some(1_000_000),
        cache_creation_5m_input_tokens: Some(0),
        cache_creation_1h_input_tokens: Some(1_000_000),
        ..Default::default()
    };
    for (w5, w1) in [(1.25_f64, 2.0_f64), (2.0, 1.25)] {
        let cfg = load(&format!(
            "input_per_mtok = 1.0\noutput_per_mtok = 2.0\ncache_write_5m_ratio = {w5}\ncache_write_1h_ratio = {w1}"
        ));
        let p = priced(&cfg, "p", "m").unwrap();
        let lower = w5.min(w1);
        assert!(
            (p.cost(&flat) - lower).abs() < 1e-12,
            "{w5}/{w1}: {}",
            p.cost(&flat)
        );
        assert!(p.cost(&flat) <= p.cost(&split_1h) + 1e-12);
    }
    assert!(priced(
        &load("input_per_mtok = 0.0\noutput_per_mtok = 0.0"),
        "p",
        "m"
    )
    .is_some());
}

#[test]
fn ceiling_must_be_finite_and_positive() {
    assert!(ceiling(0.5, SpendLanes::Billed).is_ok());
    for bad in [0.0, -1.0, f64::NAN, f64::INFINITY] {
        assert!(
            matches!(
                ceiling(bad, SpendLanes::Billed),
                Err(SpendCeilingError::InvalidMax(_))
            ),
            "{bad}"
        );
    }
}

#[test]
fn an_unaccounted_call_fails_the_meter_closed() {
    let catalog = shipped();
    let mut meter = SpendMeter::new(ceiling(5.0, SpendLanes::Billed).unwrap());
    assert!(meter
        .preflight(&catalog, "anthropic_api", "haiku-4-5")
        .is_ok());
    meter.mark_unaccounted(1);
    assert!(matches!(
        meter.preflight(&catalog, "anthropic_api", "haiku-4-5"),
        Err(SpendCeilingError::Unaccounted { calls: 1 })
    ));
    assert!(!reached(&meter), "unknown spend is not a reached cap");
    assert!(
        describe(&meter).ends_with("1 call(s) unaccounted)"),
        "{}",
        describe(&meter)
    );
}

#[test]
fn a_restored_meter_carries_the_logged_spend_and_an_unknown_log_locks_it() {
    let catalog = shipped();
    let limit = ceiling(1.0, SpendLanes::Billed).unwrap();
    let logged = |usd, basis, lane| CostProjection {
        session: SessionCost { charges: vec![charge_of(usd)], basis, lane },
        last_ask: None,
    };

    let m = SpendMeter::from_projection(
        limit,
        &logged(0.75, CostBasis::PerCall, CostLane::Billed),
    );
    assert!(m.restored());
    assert_eq!(spent_usd(&m), 0.75);
    assert!(!reached(&m));
    assert!(m
        .preflight(&catalog, "anthropic_api", "haiku-4-5")
        .is_ok());
    let m = SpendMeter::from_projection(
        limit,
        &logged(0.5, CostBasis::BaseRate, CostLane::Billed),
    );
    assert!(matches!(
        m.preflight(&catalog, "anthropic_api", "haiku-4-5"),
        Err(SpendCeilingError::UnknownHistory)
    ));
    let m = SpendMeter::from_projection(
        limit,
        &logged(3.0, CostBasis::PerCall, CostLane::ApiEquivalent),
    );
    assert_eq!((spent_usd(&m), uncounted_usd(&m)), (0.0, 3.0));
    let m =
        SpendMeter::from_projection(limit, &logged(0.9, CostBasis::PerCall, CostLane::Mixed));
    assert_eq!(spent_usd(&m), 0.9);

    let m = SpendMeter::from_projection(limit, &CostProjection::unknown());
    assert!(matches!(
        m.preflight(&catalog, "anthropic_api", "haiku-4-5"),
        Err(SpendCeilingError::UnknownHistory)
    ));

    let mut m = SpendMeter::new(limit);
    assert!(!m.restored());
    m.lock_unrestored();
    assert!(matches!(
        m.preflight(&catalog, "anthropic_api", "haiku-4-5"),
        Err(SpendCeilingError::Unrestored)
    ));
}

#[test]
fn config_is_off_by_default_and_loud_when_half_set() {
    assert_eq!(SpendConfig::default().ceiling(""), Ok(None));
    let half = SpendConfig {
        enabled: true,
        max_usd: None,
        lanes: SpendLanes::Billed,
    };
    assert!(matches!(
        half.ceiling(""),
        Err(SpendCeilingError::InvalidMax(_))
    ));
    let on = SpendConfig {
        enabled: true,
        max_usd: Some(d(2.0)),
        lanes: SpendLanes::All,
    };
    assert_eq!(
        on.ceiling("2"),
        Ok(Some(ceiling(2.0, SpendLanes::All).unwrap()))
    );
    let off = SpendConfig {
        enabled: false,
        max_usd: Some(d(2.0)),
        lanes: SpendLanes::Billed,
    };
    assert_eq!(off.ceiling("2"), Ok(None));
}

#[test]
fn meter_prices_per_request_and_reaches_after_the_crossing_call() {
    let catalog = shipped();
    let card = SpendCeiling::card_for(&catalog, "anthropic_api", "haiku-4-5").unwrap();
    let limit = ceiling(0.25, SpendLanes::Billed).unwrap();
    let mut m = SpendMeter::new(limit);
    assert!(!reached(&m));
    m.record("anthropic_api", &card, &usage(100_000, 0));
    assert!((spent_usd(&m) - 0.10).abs() < 1e-12);
    assert!(!reached(&m));
    m.record("anthropic_api", &card, &usage(100_000, 0));
    assert!(!reached(&m));
    m.record("anthropic_api", &card, &usage(100_000, 0));
    assert!(reached(&m));
    assert_eq!(m.counted_requests(), 3);
    assert_eq!(describe(&m), "$0.3000 of $0.25 (lanes: billed)");
}

#[test]
fn subscription_usage_counts_only_under_all_lanes() {
    let catalog = shipped();
    let card = SpendCeiling::card_for(&catalog, "openai_codex", "gpt-5.5").unwrap();
    let billed = ceiling(0.10, SpendLanes::Billed).unwrap();
    let mut m = SpendMeter::new(billed);
    m.record("openai_codex", &card, &usage(100_000, 0));
    assert_eq!(spent_usd(&m), 0.0);
    assert!((uncounted_usd(&m) - 0.5).abs() < 1e-12);
    assert!(!reached(&m));
    let all = ceiling(0.10, SpendLanes::All).unwrap();
    let mut m = SpendMeter::new(all);
    m.record("openai_codex", &card, &usage(100_000, 0));
    assert!((spent_usd(&m) - 0.5).abs() < 1e-12);
    assert!(reached(&m));
}

#[test]
fn an_unpriceable_lane_refuses_to_arm() {
    let catalog = shipped();
    assert!(matches!(
        SpendCeiling::card_for(&catalog, "ollama", "qwen3.8:27b-q8_0"),
        Err(SpendCeilingError::Unmeterable { .. })
    ));
    assert!(matches!(
        SpendCeiling::card_for(&catalog, "anthropic_api", "future-9"),
        Err(SpendCeilingError::Unmeterable { .. })
    ));
    let err = SpendCeiling::card_for(&catalog, "faux", "m").unwrap_err();
    assert!(err.message().contains("no rate card"), "{}", err.message());
}

#[test]
fn compute_idle_no_usage() {
    let status = SessionStatus::compute(&shipped(), StatusInputs {
        session_id: "s1",
        daemon_id: "d1",
        provider_kind: "anthropic_api",
        model: "opus-4-7",
        cumulative_usage: None,
        ask_count: 0,
        tool_call_count: 0,
        elapsed_total_ms: 0,
        provider_status: None,
    });
    assert_eq!(status.phase, "idle");
    assert_eq!(status.phase_elapsed_ms, 0);
    assert_eq!(status.input_tokens, 0);
    assert_eq!(status_usd(&status), 0.0);
    assert!(status.cache_read_tokens.is_none());
}

#[test]
fn compute_with_usage_and_cost() {
    let usage = Usage {
        input_tokens: 10_000,
        output_tokens: 2_000,
        cache_read_input_tokens: Some(5_000),
        cache_creation_input_tokens: Some(1_000),
        ..Default::default()
    };
    let status = SessionStatus::compute(&shipped(), StatusInputs {
        session_id: "s1",
        daemon_id: "d1",
        provider_kind: "anthropic_api",
        model: "opus-4-7",
        cumulative_usage: Some(&usage),
        ask_count: 3,
        tool_call_count: 7,
        elapsed_total_ms: 45_000,
        provider_status: None,
    });
    assert_eq!(status.input_tokens, 10_000);
    assert_eq!(status.output_tokens, 2_000);
    assert_eq!(status.ask_count, 3);
    assert_eq!(status.tool_call_count, 7);
    assert!(status_usd(&status) > 0.0);
    assert_eq!(status.cache_read_tokens, Some(5_000));
    assert_eq!(status.cache_creation_tokens, Some(1_000));
}

#[test]
fn compute_streaming_phase() {
    let status = SessionStatus::compute(&shipped(), StatusInputs {
        session_id: "s1",
        daemon_id: "d1",
        provider_kind: "anthropic_api",
        model: "opus-4-7",
        cumulative_usage: None,
        ask_count: 1,
        tool_call_count: 0,
        elapsed_total_ms: 3_000,
        provider_status: Some(ProviderSnapshot {
            kind: ProviderStatusKind::Streaming,
            started_at_unix_ms: 1000,
            now_unix_ms: 4200,
        }),
    });
    assert_eq!(status.phase, "streaming");
    assert_eq!(status.phase_elapsed_ms, 3200);
}

#[test]
fn compute_unknown_provider_zero_cost() {
    let usage = Usage {
        input_tokens: 10_000,
        output_tokens: 2_000,
        ..Default::default()
    };
    let status = SessionStatus::compute(&catalog(""), StatusInputs {
        session_id: "s1",
        daemon_id: "d1",
        provider_kind: "openai_codex",
        model: "gpt-5.5",
        cumulative_usage: Some(&usage),
        ask_count: 1,
        tool_call_count: 0,
        elapsed_total_ms: 1_000,
        provider_status: None,
    });
    assert_eq!(status_usd(&status), 0.0);
    assert_eq!(status.input_tokens, 10_000);
}

#[test]
fn faux_always_configured() {
    let catalog = seeded();
    let faux = catalog.find("faux", "faux").expect("faux must exist");
    assert!(faux.configured);
}

#[test]
fn hash_is_deterministic() {
    let a = build_entry(
        &shipped(),
        &shipped(),
        "anthropic_api",
        "opus-4-7",
        true,
        Some(200_000),
        Some(1_000_000),
    );
    let b = build_entry(
        &shipped(),
        &shipped(),
        "anthropic_api",
        "opus-4-7",
        true,
        Some(200_000),
        Some(1_000_000),
    );
    assert_eq!(a.hash, b.hash);
}

#[test]
fn hash_changes_with_limits() {
    let a = build_entry(
        &shipped(),
        &shipped(),
        "anthropic_api",
        "test-hash",
        true,
        Some(200_000),
        Some(1_000_000),
    );
    let b = build_entry(
        &shipped(),
        &shipped(),
        "anthropic_api",
        "test-hash",
        true,
        Some(500_000),
        Some(1_000_000),
    );
    assert_ne!(a.hash, b.hash);
}

#[test]
fn find_by_hash_works() {
    let catalog = seeded();
    let entry = catalog.find("faux", "faux").unwrap();
    let found = catalog.find_by_hash(&entry.hash).unwrap();
    assert_eq!(found.model, entry.model);
}

#[test]
fn pricing_populated_for_known_models() {
    let catalog = seeded();
    if let Some(opus) = catalog.find("anthropic_api", "opus-4-7") {
        assert_eq!(opus.pricing_input_per_mtok, Some(d(5.00)));
        assert_eq!(opus.pricing_output_per_mtok, Some(d(25.00)));
    }
}

#[test]
fn configured_reflects_env() {
    let catalog = seeded();
    let faux = catalog.find("faux", "faux").unwrap();
    assert!(faux.configured, "faux is always configured");
}

#[test]
fn with_ollama_models_merges_configured_entries() {
    let catalog =
        seeded().with_ollama_models_using(&shipped(), &shipped(), &strings(&["qwen3-coder:30b", "deepseek-r1:32b"]));
    let q = catalog
        .find("ollama", "qwen3-coder:30b")
        .expect("ollama model should be present");
    assert!(q.configured, "discovered ollama models are configured");
    assert_eq!(q.context_soft_limit, None);
    assert_eq!(q.context_hard_limit, None);
    assert_eq!(q.pricing_input_per_mtok, None);
    assert_eq!(q.pricing_output_per_mtok, None);
    assert!(catalog.find("ollama", "deepseek-r1:32b").is_some());
}

#[test]
fn ollama_qwen36_route_is_catalog_enriched() {
    let built_in = shipped();
    let catalog = RouteCatalog::from_catalog_with_availability(
        &built_in,
        &built_in,
        ProviderAvailability::all_configured(),
        &seeds(),
    )
    .with_ollama_models_using(&built_in, &built_in, &strings(&["qwen3.6:35b-a3b-q8_0"]));
    let q = catalog
        .find("ollama", "qwen3.6:35b-a3b-q8_0")
        .expect("discovered qwen3.6 route should be present");
    assert_eq!(q.max_output_tokens, Some(16384));
    assert!(q
        .quirks
        .iter()
        .any(|q| *q == "thinking_counts_against_max_tokens"));
    assert!(q
        .favorites
        .iter()
        .any(|f| f.name == "local_qwen36"));
    assert_eq!(q.default_effort.as_deref(), Some("on"));
    assert_eq!(
        q.valid_effort_levels
            .as_ref()
            .map(|levels| { levels.iter().map(|s| s.to_string()).collect::<Vec<_>>() }),
        Some(vec!["off".to_string(), "on".to_string()])
    );
}

#[test]
fn favorites_create_routes_for_operator_only_models() {
    let mut cfg = shipped();
    cfg.models.insert(
        "glm".into(),
        ModelCatalogEntry {
            model: Some("z-ai/glm-5.2".into()),
            context_hard_limit: Some(1_048_576),
            max_output_tokens: Some(32_768),
            ..empty_entry()
        },
    );
    cfg.favorites.insert(
        "glm".into(),
        FavoriteConfig {
            provider: "openrouter".into(),
            model: "glm".into(),
            aliases: vec!["glm".into()],
            ..empty_favorite()
        },
    );

    let catalog = RouteCatalog::from_catalog_with_availability(
        &cfg,
        &cfg,
        ProviderAvailability::all_configured(),
        &seeds(),
    )
    .with_favorite_routes(&cfg, &cfg, ProviderAvailability::all_configured());
    let route = catalog
        .find("openrouter", "z-ai/glm-5.2")
        .expect("favorite should create route for its provider/model pair");
    assert!(route.configured);
    assert_eq!(route.context_hard_limit, Some(1_048_576));
    assert_eq!(route.max_output_tokens, Some(32_768));
    assert!(route.favorites.iter().any(|f| f.name == "glm"));
}

#[test]
fn with_ollama_models_dedupes_generated_routes() {
    let mut cfg = shipped();
    cfg.models.insert(
        "local".into(),
        ModelCatalogEntry {
            model: Some("qwen3.6:35b-a3b-q8_0".into()),
            context_hard_limit: Some(262_144),
            max_output_tokens: Some(32_768),
            ..empty_entry()
        },
    );
    let mut base = RouteCatalog::from_catalog_with_availability(
        &cfg,
        &cfg,
        ProviderAvailability::all_configured(),
        &seeds(),
    );
    base.add_model_entries_for_provider(
        &cfg,
        &cfg,
        "ollama",
        &cfg.models,
        ProviderAvailability::all_configured(),
    );
    let catalog = base.with_ollama_models_using(&cfg, &cfg, &strings(&["qwen3.6:35b-a3b-q8_0"]));
    let matches = catalog
        .entries()
        .iter()
        .filter(|e| {
            e.provider_kind == "ollama" && e.model == "qwen3.6:35b-a3b-q8_0"
        })
        .count();
    assert_eq!(matches, 1);
}

#[test]
fn with_ollama_models_empty_is_noop() {
    let base = seeded().entries().len();
    let merged = seeded()
        .with_ollama_models_using(&shipped(), &shipped(), &Vec::<String>::new())
        .entries()
        .len();
    assert_eq!(base, merged);
}

#[test]
fn anthropic_fallback_includes_xhigh() {
    let (levels, default) =
        effort_config("anthropic_api", &ResolvedModelSettings::default());
    let levels: Vec<String> = levels.unwrap().iter().map(|s| s.to_string()).collect();
    assert_eq!(levels, vec!["low", "medium", "high", "xhigh", "max"]);
    assert_eq!(default.as_deref(), Some("medium"));
}

#[test]
fn codex_fallback_drops_minimal_adds_xhigh() {
    let (levels, default) =
        effort_config("openai_codex", &ResolvedModelSettings::default());
    let levels: Vec<String> = levels.unwrap().iter().map(|s| s.to_string()).collect();
    assert_eq!(levels, vec!["low", "medium", "high", "xhigh"]);
    assert!(!levels.iter().any(|l| l == "minimal"));
    assert_eq!(default.as_deref(), Some("medium"));
}

#[test]
fn openai_api_fallback_matches_codex() {
    let (levels, default) =
        effort_config("openai_api", &ResolvedModelSettings::default());
    let levels: Vec<String> = levels.unwrap().iter().map(|s| s.to_string()).collect();
    assert_eq!(levels, vec!["low", "medium", "high", "xhigh"]);
    assert!(!levels.iter().any(|l| l == "minimal"));
    assert_eq!(default.as_deref(), Some("medium"));
}

#[test]
fn model_catalog_effort_overrides_provider_fallback() {
    let mut cfg = catalog("");
    cfg.models.insert(
        "opus".into(),
        ModelCatalogEntry {
            model: Some("opus-4-8".into()),
            effort_levels: vec!["low".into(), "max".into()],
            default_effort: Some("max".into()),
            ..empty_entry()
        },
    );
    let entry = build_entry(&cfg, &cfg, "anthropic_api", "opus-4-8", true, None, None);
    let levels: Vec<String> = entry
        .valid_effort_levels
        .unwrap()
        .iter()
        .map(|s| s.to_string())
        .collect();
    assert_eq!(levels, vec!["low", "max"]);
    assert_eq!(entry.default_effort.as_deref(), Some("max"));
}

#[test]
fn orphaned_rule_override_is_named() {
    assert!(shipped().prefixless_rules().is_empty());
    let overlay = r#"
[model_rules.gen_5_frontier]
max_output_tokens = 100000
"#;
    let cfg: ModelCatalogConfig = catalog(&format!("{SHIPPED}{overlay}"));
    assert_eq!(
        cfg.prefixless_rules(),
        vec!["gen_5_frontier"]
    );
    assert_eq!(
        cfg.resolve_model("opus-5").max_output_tokens,
        Some(128000),
        "the orphaned override changes nothing"
    );
}

#[test]
fn detects_mis_keyed_model_tables() {
    let toml = r#"
["models.qwen3.6:27b"]
model = "qwen3.6:27b"
context_soft_limit = 200000

["model_rules.deepseek:v4"]
prefix = "deepseek"

[models."qwen3-coder:30b"]
model = "qwen3-coder:30b"

[model_rules.deepseek]
prefix = "deepseek"

[models.gpt-oss-rev]
model = "gpt-oss-rev"
"#;
    let mut stray = mis_keyed_model_tables(toml);
    stray.sort();
    assert_eq!(
        stray,
        vec![
            "model_rules.deepseek:v4".to_string(),
            "models.qwen3.6:27b".to_string(),
        ],
        "only the whole-path-quoted tables are flagged; nested forms are fine"
    );
}

#[test]
fn detects_dotted_nested_model_keys() {
    let toml = r#"
[models.gpt-5.5]
model = "gpt-5.5"
context_hard_limit = 1000000
context_soft_limit = 262144

[models."opus-4-8"]
model = "opus-4-8"
context_soft_limit = 200000

[models.gpt-oss-rev]
model = "gpt-oss-rev"

# the schema's own nested table: consumed, not a mis-key
[models.gpt-oss-rev.pricing]
input_per_mtok = 1.0
output_per_mtok = 2.0

[model_rules.deepseek.v4]
prefix = "deepseek"

[model_rules.gpt_family]
prefix = "gpt-"
[model_rules.gpt_family.pricing]
input_per_mtok = 1.0
output_per_mtok = 2.0
"#;
    let mut found = dotted_nested_model_entries(toml);
    found.sort();
    assert_eq!(
        found,
        vec![
            ("model_rules".to_string(), "deepseek.v4".to_string()),
            ("models".to_string(), "gpt-5.5".to_string()),
        ],
        "only the unquoted-dotted keys nest; quoted and single-segment keys are fine"
    );
}

#[test]
fn pricing_tables_resolve_entry_over_rule_and_follow_provider_semantics() {
    let toml = r#"
[providers.acme_api]
kind = "acme_api"
usage_semantics = "openai_style"

[providers.zed_api]
kind = "zed_api"

[models.big]
model = "big-1"
[models.big.pricing]
input_per_mtok = 10.0
output_per_mtok = 50.0
long_context = { prompt_threshold = 272000, input_mult = 2.0, output_mult = 1.5 }

[model_rules.big_family]
prefix = "big-"
[model_rules.big_family.pricing]
input_per_mtok = 4.0
output_per_mtok = 20.0
cache_read_ratio = 0.025

[models.unpriced]
model = "free-1"
"#;
    let cfg: ModelCatalogConfig = catalog(toml);
    let exact = cfg.resolve_model("big-1").pricing.expect("entry card");
    assert_eq!(
        (exact.input_per_mtok, exact.output_per_mtok),
        (Some(d(10.0)), Some(d(50.0)))
    );
    assert_eq!(
        exact.long_context.map(|t| t.prompt_threshold),
        Some(272_000)
    );
    let dated = cfg
        .resolve_model("big-1-20261201")
        .pricing
        .expect("rule card");
    assert_eq!(
        (dated.input_per_mtok, dated.cache_read_ratio),
        (Some(d(4.0)), Some(d(0.025)))
    );
    assert!(cfg.resolve_model("free-1").pricing.is_none());

    let inclusive = priced(&cfg, "acme_api", "big-1").expect("priced");
    assert!(inclusive.cache_read_in_input && inclusive.cache_creation_in_input);
    assert_eq!(inclusive.cache_read_ratio, 1.0);
    assert!(inclusive.long_context.is_some());
    let disjoint = priced(&cfg, "zed_api", "big-1-x").expect("priced");
    assert!(!disjoint.cache_read_in_input && !disjoint.cache_creation_in_input);
    assert_eq!(disjoint.cache_read_ratio, 0.025);
    assert!(priced(&cfg, "acme_api", "free-1").is_none());
    assert!(priced(&cfg, "nobody", "big-1").is_none());
    let toml = r#"
[providers.local]
kind = "local"
priced = false

[models.big]
model = "big-1"
[models.big.pricing]
input_per_mtok = 10.0
output_per_mtok = 50.0
"#;
    let cfg: ModelCatalogConfig = catalog(toml);
    assert!(priced(&cfg, "local", "big-1").is_none());
    let no_ratio = r#"
[providers.p]
kind = "p"
[models.m]
model = "m"
[models.m.pricing]
input_per_mtok = 10.0
output_per_mtok = 50.0
"#;
    let cfg: ModelCatalogConfig = catalog(no_ratio);
    assert_eq!(
        priced(&cfg, "p", "m")
            .unwrap()
            .cache_read_ratio,
        1.0
    );
    let shipped = shipped();
    assert_eq!(
        shipped.provider("ollama").and_then(|p| p.priced),
        Some(false)
    );
    assert_eq!(shipped.provider("vllm").and_then(|p| p.priced), Some(false));
}

#[test]
fn built_in_qwen36_gets_reasoning_budget() {
    assert_eq!(
        shipped()
            .resolve_model("qwen3.6:35b-a3b-q8_0")
            .max_output_tokens,
        Some(16384)
    );
}

#[test]
fn exact_model_overrides_rule() {
    let toml = r#"
        [model_rules.q]
        prefix = "qwen3.6:"
        max_output_tokens = 4096
        quirks = ["rule"]

        [models.q]
        model = "qwen3.6:35b"
        max_output_tokens = 24576
        quirks = ["exact"]
    "#;
    let cfg: ModelCatalogConfig = catalog(toml);
    let s = cfg.resolve_model("qwen3.6:35b");
    assert_eq!(s.max_output_tokens, Some(24576));
    assert_eq!(s.quirks, vec!["rule".to_string(), "exact".to_string()]);
}

#[test]
fn favorites_match_provider_and_model_aliases() {
    let toml = r#"
        [providers.ollama]
        kind = "ollama"
        aliases = ["local"]

        [models.q]
        model = "qwen3.6:35b"
        aliases = ["qwen"]

        [favorites.local_reasoner]
        provider = "local"
        model = "q"
        label = "Local Reasoner"
        aliases = ["lr"]
    "#;
    let cfg: ModelCatalogConfig = catalog(toml);
    let favs = cfg.favorites_for("ollama", "qwen3.6:35b");
    assert_eq!(favs.len(), 1);
    assert_eq!(favs[0].0, "local_reasoner");
}

#[test]
fn resolve_selection_alias_matches_favorite_name_and_aliases() {
    let toml = r#"
        [favorites.local_reasoner]
        provider = "ollama"
        model = "qwen3.6:35b-a3b-q8_0"
        aliases = ["lr", "qwen35"]
    "#;
    let cfg: ModelCatalogConfig = catalog(toml);
    assert_eq!(
        cfg.resolve_selection_alias("local_reasoner"),
        Some(("ollama", "qwen3.6:35b-a3b-q8_0"))
    );
    assert_eq!(
        cfg.resolve_selection_alias("lr"),
        Some(("ollama", "qwen3.6:35b-a3b-q8_0"))
    );
    assert_eq!(
        cfg.resolve_selection_alias("qwen35"),
        Some(("ollama", "qwen3.6:35b-a3b-q8_0"))
    );
    assert_eq!(cfg.resolve_selection_alias("qwen3.6:35b-a3b-q8_0"), None);
    assert_eq!(cfg.resolve_selection_alias("nope"), None);
}

#[test]
fn resolve_model_name_follows_label_chains_and_passes_raw_through() {
    let toml = r#"
        [models.architect]
        model = "gpt-5.5-codex"

        [models.coding]
        model = "gpt-5.5"

        [models.local]
        model = "qwen3-6"
        [models.qwen3-6]
        model = "qwen3.6:35b-a3b-q8_0"

        [models.selfref]
        model = "selfref"
    "#;
    let cfg: ModelCatalogConfig = catalog(toml);
    assert_eq!(cfg.resolve_model_name("architect"), "gpt-5.5-codex");
    assert_eq!(cfg.resolve_model_name("coding"), "gpt-5.5");
    assert_eq!(cfg.resolve_model_name("local"), "qwen3.6:35b-a3b-q8_0");
    assert_eq!(cfg.resolve_model_name("gpt-5.5"), "gpt-5.5");
    assert_eq!(
        cfg.resolve_model_name("qwen3.6:35b-a3b-q8_0"),
        "qwen3.6:35b-a3b-q8_0"
    );
    assert_eq!(cfg.resolve_model_name("selfref"), "selfref");
    assert_eq!(cfg.resolve_model_name("nope"), "nope");
}

#[test]
fn operator_alias_override_wins_over_builtin_same_model_different_key() {
    let toml = r#"
        [models.builtin_opus_4_8]
        model = "opus-4-8"
        family = "opus-4"
        context_soft_limit = 200000
        context_hard_limit = 1000000
        max_output_tokens = 16384

        [models.opus]
        model = "opus-4-8"
        context_soft_limit = 500000
        context_hard_limit = 750000
    "#;
    let mut cfg: ModelCatalogConfig = catalog(toml);
    assert_eq!(
        cfg.resolve_model("opus-4-8").context_soft_limit,
        Some(200000),
        "the shipped entry shadows the operator's alias-keyed override"
    );
    let operator_keys: Vec<String> = vec!["opus".to_string()];
    fold_operator_overrides(&mut cfg.models, &operator_keys);
    assert!(
        !cfg.models.contains_key("builtin_opus_4_8"),
        "built-in shadow removed"
    );
    let opus = cfg.models.get("opus").unwrap();
    assert_eq!(opus.context_soft_limit, Some(500000), "operator value wins");
    assert_eq!(opus.context_hard_limit, Some(750000), "operator value wins");
    assert_eq!(
        opus.max_output_tokens,
        Some(16384),
        "inherited from built-in"
    );
    assert_eq!(opus.family.as_deref(), Some("opus-4"), "inherited");
    assert_eq!(
        cfg.resolve_model("opus-4-8").context_soft_limit,
        Some(500000)
    );
    assert_eq!(
        cfg.resolve_model("opus-4-8").context_hard_limit,
        Some(750000)
    );
}

#[test]
fn model_effort_levels_and_default_resolve() {
    let toml = r#"
        [model_rules.anthropic]
        prefix = "opus"
        effort_levels = ["low", "medium", "high"]
        default_effort = "medium"

        [models.opus]
        model = "opus-4-8"
        effort_levels = ["low", "medium", "high", "xhigh", "max"]
        default_effort = "xhigh"
    "#;
    let cfg: ModelCatalogConfig = catalog(toml);
    let s = cfg.resolve_model("opus-4-8");
    assert_eq!(
        s.effort_levels,
        vec!["low", "medium", "high", "xhigh", "max"]
    );
    assert_eq!(s.default_effort.as_deref(), Some("xhigh"));
}

fn log(payloads: Vec<EventPayload>) -> SessionEventLog {
    let mut log = SessionEventLog::new("s".to_string());
    for p in payloads {
        log.append(EventActor::System, p);
    }
    log
}

fn created(provider: &str, model: &str) -> EventPayload {
    EventPayload::SessionCreated {
        provider_kind: provider.into(),
        model: model.into(),
        parent_session_id: None,
        branched_at_parent_event_id: None,
        usage_semantics: None,
    }
}

fn switched(provider: &str, model: &str) -> EventPayload {
    EventPayload::ProviderSwitched {
        old_provider_kind: String::new(),
        old_model: String::new(),
        new_provider_kind: provider.into(),
        new_model: model.into(),
        context_soft_limit: None,
        context_hard_limit: None,
        usage_semantics: None,
    }
}

fn asked() -> EventPayload {
    EventPayload::UserMessage { content: "go".into() }
}

fn call(usage: Option<Usage>) -> EventPayload {
    EventPayload::AssistantMessageEvent {
        message: AssistantMessage {
            content: Vec::new(),
            stop_reason: StopReason::EndTurn,
            usage,
        },
    }
}

fn done(usage: Option<Usage>) -> EventPayload {
    EventPayload::Done {
        stop_reason: StopReason::EndTurn,
        turn_count: 1,
        usage,
        elapsed_ms: None,
    }
}

fn projected(payloads: Vec<EventPayload>) -> CostProjection {
    project(&shipped(), &log(payloads).snapshot())
}

#[test]
fn calls_are_priced_one_by_one() {
    let p = projected(vec![
        created("openai_api", "gpt-6-astra"),
        asked(),
        call(Some(usage(150_000, 0))),
        call(Some(usage(150_000, 0))),
        done(Some(usage(300_000, 0))),
    ]);
    assert!((total(&p.session.charges) - 3.0).abs() < 1e-9);
    assert_eq!(p.session.basis, CostBasis::PerCall);
    assert_eq!(p.session.lane, CostLane::Billed);
    assert!((total(&p.last_ask.unwrap()) - 3.0).abs() < 1e-9);
}

#[test]
fn unaccounted_totals_are_priced_at_the_base_rate() {
    let p = projected(vec![
        created("openai_api", "gpt-6-astra"),
        asked(),
        call(Some(usage(100_000, 0))),
        done(Some(usage(400_000, 0))),
    ]);
    assert_eq!(p.session.basis, CostBasis::BaseRate);
    assert!((total(&p.session.charges) - 4.0).abs() < 1e-9);
    assert_eq!(p.last_ask, None);
}

#[test]
fn usage_without_a_card_is_unknown() {
    let p = projected(vec![
        created("ollama", "qwen3.6:35b"),
        asked(),
        call(Some(usage(10, 0))),
        done(None),
        switched("anthropic_api", "opus-4-8"),
        asked(),
        call(Some(usage(1_000_000, 0))),
        done(None),
    ]);
    assert_eq!(p.session.basis, CostBasis::Unknown);
    assert!((total(&p.last_ask.unwrap()) - 5.0).abs() < 1e-9);
}

#[test]
fn a_call_without_usage_is_unknown() {
    let p = projected(vec![created("anthropic_api", "opus-4-8"), asked(), call(None)]);
    assert_eq!(p.session.basis, CostBasis::Unknown);
    assert_eq!(p.last_ask, None);
}

#[test]
fn each_call_keeps_the_card_in_force_and_lanes_mix() {
    let p = projected(vec![
        created("anthropic_oauth", "opus-4-8"),
        asked(),
        call(Some(usage(1_000_000, 0))),
        done(None),
        switched("anthropic_api", "haiku-4-5"),
        asked(),
        call(Some(usage(1_000_000, 0))),
        done(None),
    ]);
    assert!((total(&p.session.charges) - 6.0).abs() < 1e-9);
    assert_eq!(p.session.lane, CostLane::Mixed);
    assert!((total(&p.last_ask.unwrap()) - 1.0).abs() < 1e-9);
}

#[test]
fn a_remainder_across_a_switch_is_unknown() {
    let p = projected(vec![
        created("anthropic_api", "opus-4-8"),
        asked(),
        switched("anthropic_api", "haiku-4-5"),
        done(Some(usage(10, 0))),
    ]);
    assert_eq!(p.session.basis, CostBasis::Unknown);
}

#[test]
fn an_ask_after_an_error_starts_anew() {
    let p = projected(vec![
        created("anthropic_api", "opus-4-8"),
        asked(),
        call(Some(usage(1_000_000, 0))),
        EventPayload::Error { message: "lost".into() },
        asked(),
        call(Some(usage(2_000_000, 0))),
        done(Some(usage(2_000_000, 0))),
    ]);
    assert_eq!(p.session.basis, CostBasis::PerCall);
    assert!((total(&p.session.charges) - 15.0).abs() < 1e-9);
    assert!((total(&p.last_ask.unwrap()) - 10.0).abs() < 1e-9);
}

#[test]
fn an_empty_log_costs_nothing() {
    let p = projected(Vec::new());
    assert!(p.session.charges.is_empty());
    assert_eq!(p.session.basis, CostBasis::PerCall);
    assert_eq!(p.last_ask, Some(Vec::new()));
}

#[test]
fn remainders_drop_a_split_that_falls_short() {
    let calls = Usage {
        input_tokens: 10,
        cache_creation_input_tokens: Some(1),
        cache_creation_5m_input_tokens: Some(4),
        cache_creation_1h_input_tokens: Some(0),
        ..Default::default()
    };
    let whole = Usage {
        input_tokens: 10,
        cache_creation_input_tokens: Some(6),
        cache_creation_5m_input_tokens: Some(6),
        cache_creation_1h_input_tokens: Some(0),
        ..Default::default()
    };
    let rest = remainder(Some(calls), &whole).unwrap();
    assert_eq!(rest.input_tokens, 0);
    assert_eq!(rest.cache_creation_input_tokens, Some(5));
    assert_eq!(rest.cache_creation_5m_input_tokens, None);
    assert_eq!(rest.cache_creation_1h_input_tokens, None);
    assert_eq!(remainder(Some(whole), &whole), None);
    assert_eq!(remainder(None, &whole), Some(whole));
}

#[test]
fn a_projection_restores_the_meter() {
    let limit = ceiling(10.0, SpendLanes::Billed).unwrap();
    let p = projected(vec![
        created("anthropic_api", "opus-4-8"),
        asked(),
        call(Some(usage(1_000_000, 0))),
        done(None),
    ]);
    let m = SpendMeter::from_projection(limit, &p);
    assert!(m.restored());
    assert_eq!(spent_usd(&m), 5.0);
}

#[test]
fn spend_errors_in_words() {
    let e = ceiling(-1.0, SpendLanes::Billed).unwrap_err();
    assert_eq!(e, SpendCeilingError::InvalidMax("-1".to_string()));
    assert!(e.message().contains("-1"));
    for e in [
        SpendCeilingError::Unaccounted { calls: 2 },
        SpendCeilingError::UnknownHistory,
        SpendCeilingError::Unrestored,
    ] {
        assert!(!e.message().is_empty());
    }
    assert!(SpendCeilingError::Unaccounted { calls: 2 }.message().contains('2'));
}

#[test]
fn hashes_are_those_of_the_route_text() {
    let entry = build_entry(&shipped(), &shipped(), "anthropic_api", "m", true, Some(1), None);
    let text = route_hash_input("anthropic_api", "m", Some(1), None);
    assert!(blake3::hash(text.as_bytes()).to_hex().as_str().starts_with(entry.hash.as_str()));
    assert!(!entry.hash.is_empty());
    let other = route_hash_input("anthropic_api", "m", None, Some(1));
    assert_ne!(text, other);
}

#[test]
fn upserting_a_known_route_only_configures_it() {
    let mut routes = RouteCatalog::from_catalog_with_availability(
        &shipped(),
        &shipped(),
        ProviderAvailability { anthropic_key: false, ..ProviderAvailability::all_configured() },
        &seeds(),
    );
    let n = routes.entries().len();
    let old = routes.entries()[0].hash.clone();
    assert_eq!(routes.configured_entries().len(), n - 1);
    routes.upsert_entry(build_entry(
        &shipped(),
        &shipped(),
        "anthropic_api",
        "opus-4-7",
        true,
        Some(7),
        Some(8),
    ));
    assert_eq!(routes.entries().len(), n);
    assert_eq!(routes.entries()[0].context_soft_limit, Some(200_000));
    assert_eq!(routes.entries()[0].hash, old);
    assert_eq!(routes.configured_entries().len(), n);
    routes.upsert_entry(build_entry(&shipped(), &shipped(), "vllm", "new", false, None, None));
    assert_eq!(routes.entries().len(), n + 1);
    assert!(routes.find("vllm", "new").is_some());
}

#[test]
fn generated_layers_are_named_after_their_provider() {
    assert_eq!(generated_provider("models.generated.ollama.toml").as_deref(), Some("ollama"));
    assert_eq!(generated_provider("models.toml"), None);
    assert_eq!(
        generated_path_for_provider("/c/models.toml", "ollama"),
        "/c/models.generated.ollama.toml"
    );
    for (path, expected) in [
        ("models.toml", "x"),
        ("/models.toml", "/x"),
        ("./models.toml", "./x"),
        ("a//./b.toml/./", "a/x"),
        ("a/..", "a/../x"),
        ("..", "../x"),
        ("/", "/x"),
        (".", "./x"),
        ("", "x"),
        ("/c/", "/x"),
        ("./a/./b", "./a/x"),
        ("/a/.hidden", "/a/x"),
    ] {
        assert_eq!(with_file_name(path, "x"), expected);
        assert_eq!(std::path::Path::new(path).with_file_name("x").to_str(), Some(expected));
    }
}

fn layer(file_name: &str, text: &str) -> GeneratedLayer {
    GeneratedLayer { file_name: file_name.to_string(), models: catalog(text).models }
}

#[test]
fn generated_layers_create_selectable_provider_routes() {
    let text = r#"
[models.fable-5]
model = "fable-5"
context_hard_limit = 1000000
max_output_tokens = 128000
effort_levels = ["low", "medium", "high", "xhigh", "max"]
"#;
    let cfg = catalog(&format!("{SHIPPED}{text}"));
    let routes = RouteCatalog::from_catalog_with_availability(
        &cfg,
        &cfg,
        ProviderAvailability::all_configured(),
        &seeds(),
    )
    .with_generated_layers_for_config(
        &cfg,
        &cfg,
        &vec![
            layer("models.toml", "[models.stray]\nmodel = \"stray\"\n"),
            layer("models.generated.anthropic_api.toml", text),
        ],
        ProviderAvailability::all_configured(),
    );
    let fable = routes
        .find("anthropic_api", "fable-5")
        .expect("generated anthropic model should become a route");
    assert!(fable.configured);
    assert_eq!(fable.context_hard_limit, Some(1_000_000));
    assert_eq!(fable.max_output_tokens, Some(128_000));
    assert_eq!(
        fable.valid_effort_levels,
        Some(strings(&["low", "medium", "high", "xhigh", "max"]))
    );
    assert_eq!(routes.entries().len(), seeded().entries().len() + 1);
}

#[test]
fn generated_layers_do_not_duplicate_seed_routes() {
    let text = "[models.opus-4-7]\nmodel = \"opus-4-7\"\ncontext_hard_limit = 1000000\nmax_output_tokens = 128000\n";
    let cfg = catalog(&format!("{SHIPPED}{text}"));
    let routes = RouteCatalog::from_catalog_with_availability(
        &cfg,
        &cfg,
        ProviderAvailability::all_configured(),
        &seeds(),
    )
    .with_generated_layers_for_config(
        &cfg,
        &cfg,
        &vec![layer("models.generated.anthropic_api.toml", text)],
        ProviderAvailability::all_configured(),
    );
    let matches = routes
        .entries()
        .iter()
        .filter(|e| e.provider_kind == "anthropic_api" && e.model == "opus-4-7")
        .count();
    assert_eq!(matches, 1, "generated layer should enrich, not duplicate");
}

#[test]
fn vllm_qwen_route_is_cataloged_when_base_configured() {
    let model = "Qwen/Qwen3-Coder-30B-A3B-Instruct-FP8";
    let seed = Seed {
        provider: "vllm".to_string(),
        model: model.to_string(),
        soft: 32_768,
        hard: 32_768,
    };
    let availability = ProviderAvailability {
        anthropic_key: false,
        openai_key: false,
        openrouter_key: false,
        vllm_configured: true,
    };
    let routes = RouteCatalog::from_catalog_with_availability(
        &shipped(),
        &shipped(),
        availability,
        &vec![seed],
    );
    let q = routes.find("vllm", model).expect("vllm qwen route should be present");
    assert!(q.configured);
    assert_eq!(q.context_hard_limit, Some(32_768));
}

#[test]
fn unknown_output_limits_have_a_default() {
    assert_eq!(max_output_tokens_for_model(&shipped(), "qwen3.6:35b"), 16384);
    assert_eq!(max_output_tokens_for_model(&catalog(""), "qwen3.6:35b"), 4096);
    assert_eq!(
        default_generated_path_for_provider(Some("/c"), "ollama").as_deref(),
        Some("/c/mu/models.generated.ollama.toml")
    );
    assert_eq!(default_generated_path_for_provider(None, "ollama"), None);
}

#[test]
fn efforts_follow_the_catalog_and_the_provider() {
    let (levels, default) = effort_config_for(&shipped(), "ollama", "qwen3.6:35b");
    assert_eq!(levels, Some(strings(&["off", "on"])));
    assert_eq!(default.as_deref(), Some("on"));
    let (levels, default) = effort_config_for(&shipped(), "anthropic_api", "unknown");
    assert_eq!(levels, Some(strings(&["low", "medium", "high", "xhigh", "max"])));
    assert_eq!(default.as_deref(), Some("medium"));
}

#[test]
fn unaccounted_calls_add_up() {
    let mut meter = SpendMeter::new(ceiling(1.0, SpendLanes::All).unwrap());
    assert_eq!(meter.unaccounted_calls(), 0);
    meter.mark_unaccounted(2);
    meter.mark_unaccounted(u32::MAX);
    assert_eq!(meter.unaccounted_calls(), u32::MAX);
}

#[test]
fn circles_of_names_end_at_the_first_that_comes_again() {
    let cfg: ModelCatalogConfig = catalog(
        r#"
        [models.start]
        model = "a"
        [models.a]
        model = "b"
        [models.b]
        model = "c"
        [models.c]
        model = "a"
    "#,
    );
    assert_eq!(cfg.resolve_model_name("start"), "a");
    assert_eq!(cfg.resolve_model_name("b"), "b");
    for name in ["start", "a", "b", "c", "elsewhere"] {
        let once = cfg.resolve_model_name(name);
        assert_eq!(cfg.resolve_model_name(&once), once);
    }
}

#[test]
fn folding_drops_only_what_is_shadowed() {
    let mut cfg: ModelCatalogConfig = catalog(
        r#"
        [models.mine]
        model = "m-1"
        [models.theirs]
        model = "m-1"
        max_output_tokens = 10
        [models.other]
        model = "m-2"
        max_output_tokens = 20
        [models.nameless]
        max_output_tokens = 30
    "#,
    );
    let before = cfg.models.get("other").cloned();
    fold_operator_overrides(&mut cfg.models, &vec!["mine".to_string(), "absent".to_string()]);
    assert_eq!(cfg.models.keys(), vec!["mine", "nameless", "other"]);
    assert_eq!(cfg.models.get("other").cloned(), before);
    assert_eq!(cfg.models.get("mine").unwrap().max_output_tokens, Some(10));
}

#[test]
fn route_hashes_have_sixteen_hex_digits() {
    let routes = seeded();
    assert!(!routes.entries().is_empty());
    for entry in routes.entries() {
        assert_eq!(entry.hash.len(), 16);
        assert!(entry.hash.chars().all(|c| c.is_ascii_digit() || ('a'..='f').contains(&c)));
    }
}

#[test]
fn the_base_rate_leaves_out_only_the_surcharge() {
    let tier = LongContextTier {
        prompt_threshold: 100,
        input_mult: d(2.0),
        output_mult: d(1.5),
    };
    let card = ModelPricing { long_context: Some(tier), ..charge_of(1.0).card };
    let full = card.cost(&usage(101, 5));
    let base = card.base_rate_cost(&usage(101, 5));
    assert_eq!(full.surcharge, Some(tier));
    assert_eq!(base, TokenSplit { surcharge: None, ..full });
}

#[test]
fn layers_are_named_for_a_provider() {
    assert!(is_generated_layer("models.generated.vllm.toml"));
    assert!(is_generated_layer("models.generated..toml"));
    assert!(!is_generated_layer("models.generated.toml"));
    assert!(!is_generated_layer("models.toml"));
    assert_eq!(
        generated_layers_for(&strings(&[
            "models.generated.vllm.toml",
            "models.generated.toml",
            "notes.txt",
            "models.generated.ollama.toml",
        ])),
        strings(&["models.generated.ollama.toml", "models.generated.vllm.toml"])
    );
}

#[test]
fn a_status_charges_its_sum_at_the_base_rate() {
    let cfg = catalog(
        r#"
        [providers.p]
        kind = "p"
        [models.m]
        model = "m"
        [models.m.pricing]
        input_per_mtok = 10.0
        output_per_mtok = 50.0
        long_context = { prompt_threshold = 1000, input_mult = 2.0, output_mult = 1.5 }
    "#,
    );
    let sum = usage(1_000_000, 0);
    let status = SessionStatus::compute(&cfg, StatusInputs {
        session_id: "s1",
        daemon_id: "d1",
        provider_kind: "p",
        model: "m",
        cumulative_usage: Some(&sum),
        ask_count: 2,
        tool_call_count: 0,
        elapsed_total_ms: 0,
        provider_status: None,
    });
    assert_eq!(status_usd(&status), 10.0);
}

#[test]
fn the_catalog_starts_with_eleven_routes() {
    let shown: Vec<(String, String, u64, u64)> = default_seeds(Some("fam"))
        .into_iter()
        .map(|s| (s.provider, s.model, s.soft, s.hard))
        .collect();
    let expected: Vec<(String, String, u64, u64)> = [
        ("anthropic_api", "fam-opus-4-8", 200_000, 1_000_000),
        ("anthropic_api", "fam-opus-4-7", 200_000, 1_000_000),
        ("anthropic_api", "fam-sonnet-4-6", 200_000, 200_000),
        ("anthropic_api", "fam-haiku-4-5", 200_000, 200_000),
        ("openai_codex", "gpt-5.5", 1_000_000, 1_000_000),
        ("openrouter", "anthropic/fam-opus-4.7", 200_000, 1_000_000),
        ("openrouter", "anthropic/fam-sonnet-4.6", 200_000, 200_000),
        ("openrouter", "anthropic/fam-haiku-4-5", 200_000, 200_000),
        ("openrouter", "x-ai/grok-3", 131_072, 131_072),
        ("openrouter", "google/gemini-2.5-pro", 1_000_000, 1_000_000),
        ("vllm", "Qwen/Qwen3-Coder-30B-A3B-Instruct-FP8", 32_768, 32_768),
    ]
    .iter()
    .map(|&(p, m, soft, hard)| (p.to_string(), m.to_string(), soft, hard))
    .collect();
    assert_eq!(shown, expected);
    assert_eq!(default_seeds(None).len(), 4);
    let routes = RouteCatalog::from_catalog_with_availability(
        &shipped(),
        &shipped(),
        ProviderAvailability::all_configured(),
        &default_seeds(Some("fam")),
    );
    assert_eq!(routes.entries().len(), 12);
}

#[test]
fn refused_tables_say_why() {
    let load = |pricing: &str| {
        catalog(&format!(
            "[providers.p]\nkind = \"p\"\n[providers.q]\nkind = \"q\"\npriced = false\n[models.m]\nmodel = \"m\"\n[models.m.pricing]\n{pricing}\n"
        ))
    };
    let missing = load("input_per_mtok = 1.0");
    assert_eq!(refusal_in(&missing, "p", "m"), Some(PricingRefusal::MissingRate));
    assert_eq!(refusal_in(&missing, "q", "m"), None);
    assert_eq!(refusal_in(&missing, "absent", "m"), None);
    assert_eq!(refusal_in(&missing, "p", "other"), None);
    let invalid = load("input_per_mtok = -1.0\noutput_per_mtok = 2.0");
    assert_eq!(refusal_in(&invalid, "p", "m"), Some(PricingRefusal::InvalidTable));
    assert!(PricingRefusal::InvalidTable.message().contains("invalid pricing table"));
    assert!(PricingRefusal::MissingRate.message().contains("missing input_per_mtok"));
    let good = load("input_per_mtok = 1.0\noutput_per_mtok = 2.0");
    assert_eq!(refusal_in(&good, "p", "m"), None);
    assert!(for_model_in(&good, "p", "m").is_some());
}
