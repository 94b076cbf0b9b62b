//! Rate cards, and what a request is charged for.
//!
//! Rates are carried as bit patterns. What is decided here is which tokens are charged at which
//! rate; multiplying and adding is left to the caller.
use vstd::prelude::*;

use crate::agent;
use crate::agent::{Usage, UsageSemantics};
use crate::double::Double;
use crate::model_catalog;
use crate::model_catalog::{ModelCatalogConfig, PricingConfig};
use crate::text;

verus! {

/// The rates of a model.
#[derive(Debug, Clone, Copy, PartialEq, Eq, Structural)]
pub struct ModelPricing {
    /// Dollars per million input tokens.
    pub input_per_mtok: Double,
    /// Dollars per million output tokens.
    pub output_per_mtok: Double,
    /// Price of cache reads relative to the input rate.
    pub cache_read_ratio: Double,
    /// Price of cache writes into the five-minute tier relative to the input rate.
    pub cache_write_5m_ratio: Double,
    /// Price of cache writes into the one-hour tier relative to the input rate.
    pub cache_write_1h_ratio: Double,
    /// Whether the input count holds the cache reads.
    pub cache_read_in_input: bool,
    /// Whether the input count holds the cache writes.
    pub cache_creation_in_input: bool,
    /// Surcharge on requests with a long prompt.
    pub long_context: Option<LongContextTier>,
}

/// A surcharge on the whole of a request whose prompt exceeds the threshold.
#[derive(Debug, Clone, Copy, PartialEq, Eq, Structural)]
pub struct LongContextTier {
    /// Requests with more prompt tokens than this are surcharged.
    pub prompt_threshold: u64,
    /// Factor on input, cache reads and cache writes.
    pub input_mult: Double,
    /// Factor on output.
    pub output_mult: Double,
}

/// The cache writes of a request.
#[derive(Debug, Clone, Copy, PartialEq, Eq, Structural)]
pub enum CacheWrites {
    /// Each tier at its own ratio.
    Tiered { five_minutes: u64, one_hour: u64 },
    /// Not split: at the lower of the two ratios.
    Flat { tokens: u64 },
}

/// The tokens of a request by the rate at which they are charged.
#[derive(Debug, Clone, Copy, PartialEq, Eq, Structural)]
pub struct TokenSplit {
    /// Input at the full rate.
    pub fresh: u64,
    pub reads: u64,
    pub writes: CacheWrites,
    pub output: u64,
    /// The surcharge that applies to the whole request.
    pub surcharge: Option<LongContextTier>,
}

/// The cache writes that a usage reports: by tier if both tiers are reported.
pub open spec fn writes_of(u: Usage) -> CacheWrites {
    match (u.cache_creation_5m_input_tokens, u.cache_creation_1h_input_tokens) {
        (Some(a), Some(b)) => CacheWrites::Tiered { five_minutes: a, one_hour: b },
        _ => CacheWrites::Flat { tokens: agent::tokens(u.cache_creation_input_tokens) as u64 },
    }
}

/// The number of tokens written to the cache.
pub open spec fn written(w: CacheWrites) -> nat {
    match w {
        CacheWrites::Tiered { five_minutes, one_hour } => (five_minutes + one_hour) as nat,
        CacheWrites::Flat { tokens } => tokens as nat,
    }
}

impl ModelPricing {
    /// The input tokens that are neither cache reads nor cache writes.
    pub open spec fn fresh_input(self, u: Usage) -> int {
        let held = (if self.cache_read_in_input {
            agent::tokens(u.cache_read_input_tokens)
        } else {
            0
        }) + (if self.cache_creation_in_input {
            written(writes_of(u))
        } else {
            0
        });
        if u.input_tokens <= held {
            0
        } else {
            u.input_tokens - held
        }
    }

    /// The size of the prompt.
    pub open spec fn prompt_size(self, u: Usage) -> nat {
        u.input_tokens as nat + (if self.cache_read_in_input {
            0
        } else {
            agent::tokens(u.cache_read_input_tokens)
        }) + (if self.cache_creation_in_input {
            0
        } else {
            written(writes_of(u))
        })
    }

    /// How a request with the usage `u` is charged; the surcharge only if `apply_tier`.
    pub open spec fn charged(self, u: Usage, apply_tier: bool) -> TokenSplit {
        TokenSplit {
            fresh: self.fresh_input(u) as u64,
            reads: agent::tokens(u.cache_read_input_tokens) as u64,
            writes: writes_of(u),
            output: u.output_tokens,
            surcharge: match self.long_context {
                Some(t) => if apply_tier && self.prompt_size(u) > t.prompt_threshold {
                    Some(t)
                } else {
                    None
                },
                None => None,
            },
        }
    }

    /// How one request with the usage `usage` is charged.
    pub fn cost(&self, usage: &Usage) -> (r: TokenSplit)
        ensures
            r == self.charged(*usage, true),
    {
        self.cost_with_tier(usage, true)
    }

    /// How a usage that sums several requests is charged: without the surcharge, which depends on
    /// the size of each.
    pub fn base_rate_cost(&self, usage: &Usage) -> (r: TokenSplit)
        ensures
            r == self.charged(*usage, false),
    {
        self.cost_with_tier(usage, false)
    }

    /// How a request is charged, with the surcharge only if `apply_tier`.
    pub fn cost_with_tier(&self, usage: &Usage, apply_tier: bool) -> (r: TokenSplit)
        ensures
            r == self.charged(*usage, apply_tier),
    {
        let reads: u64 = usage.cache_read_input_tokens.unwrap_or(0);
        let (writes, total) = match (
            usage.cache_creation_5m_input_tokens,
            usage.cache_creation_1h_input_tokens,
        ) {
            (Some(a), Some(b)) => (
                CacheWrites::Tiered { five_minutes: a, one_hour: b },
                a as u128 + b as u128,
            ),
            _ => {
                let n: u64 = usage.cache_creation_input_tokens.unwrap_or(0);
                (CacheWrites::Flat { tokens: n }, n as u128)
            },
        };
        let mut held: u128 = 0;
        let mut prompt: u128 = usage.input_tokens as u128;
        if self.cache_read_in_input {
            held = held + reads as u128;
        } else {
            prompt = prompt + reads as u128;
        }
        if self.cache_creation_in_input {
            held = held + total;
        } else {
            prompt = prompt + total;
        }
        let fresh: u64 = if usage.input_tokens as u128 <= held {
            0
        } else {
            (usage.input_tokens as u128 - held) as u64
        };
        let surcharge = match self.long_context {
            Some(t) => if apply_tier && prompt > t.prompt_threshold as u128 {
                Some(t)
            } else {
                None
            },
            None => None,
        };
        TokenSplit { fresh, reads, writes, output: usage.output_tokens, surcharge }
    }

    /// This card with what `semantics` declares in place of its own flags.
    pub open spec fn with_semantics(self, semantics: Option<UsageSemantics>) -> ModelPricing {
        match semantics {
            Some(s) => ModelPricing {
                cache_read_in_input: match s.cache_read_in_input {
                    Some(b) => b,
                    None => self.cache_read_in_input,
                },
                cache_creation_in_input: match s.cache_creation_in_input {
                    Some(b) => b,
                    None => self.cache_creation_in_input,
                },
                ..self
            },
            None => self,
        }
    }

    /// This card under the convention that a session registered. What is not declared stays as the
    /// card says.
    pub fn under_semantics(self, semantics: Option<UsageSemantics>) -> (r: Self)
        ensures
            r == self.with_semantics(semantics),
    {
        let mut card = self;
        if let Some(s) = semantics {
            if let Some(b) = s.cache_read_in_input {
                card.cache_read_in_input = b;
            }
            if let Some(b) = s.cache_creation_in_input {
                card.cache_creation_in_input = b;
            }
        }
        card
    }
}

/// Where a session's figure comes from.
#[derive(Debug, Clone, Copy, PartialEq, Eq, Structural)]
pub enum CostBasis {
    /// There is no figure: some usage cannot be priced.
    Unknown,
    /// Every call is priced under the card in force at the time.
    PerCall,
    /// Some usage was known per ask only and is priced without the surcharge.
    BaseRate,
}

impl Default for CostBasis {
    fn default() -> (r: Self)
        ensures
            r is Unknown,
    {
        CostBasis::Unknown
    }
}

/// Whether a figure is money billed, or what a subscription lane would have cost.
#[derive(Debug, Clone, Copy, PartialEq, Eq, Structural)]
pub enum CostLane {
    /// All of it ran on metered lanes, or there was nothing.
    Billed,
    /// All of it ran on subscription lanes.
    ApiEquivalent,
    /// Some of each.
    Mixed,
}

impl Default for CostLane {
    fn default() -> (r: Self)
        ensures
            r is Billed,
    {
        CostLane::Billed
    }
}

/// The lane of priced usage of which some, or none, ran on subscription lanes and some, or none,
/// on metered lanes.
pub open spec fn lane_of(subscription: bool, metered: bool) -> CostLane {
    if subscription && metered {
        CostLane::Mixed
    } else if subscription {
        CostLane::ApiEquivalent
    } else {
        CostLane::Billed
    }
}

impl CostLane {
    /// The lane after one more usage.
    pub open spec fn folded(self, api_equivalent: bool, seen_any: bool) -> CostLane {
        if !seen_any {
            lane_of(api_equivalent, !api_equivalent)
        } else {
            lane_of(
                api_equivalent || !(self is Billed),
                !api_equivalent || !(self is ApiEquivalent),
            )
        }
    }

    /// The lane after one more usage; `seen_any` says whether there was one before.
    pub fn fold(self, api_equivalent: bool, seen_any: bool) -> (r: Self)
        ensures
            r == self.folded(api_equivalent, seen_any),
    {
        if !seen_any {
            if api_equivalent {
                CostLane::ApiEquivalent
            } else {
                CostLane::Billed
            }
        } else {
            match (self, api_equivalent) {
                (CostLane::ApiEquivalent, true) => CostLane::ApiEquivalent,
                (CostLane::Billed, false) => CostLane::Billed,
                _ => CostLane::Mixed,
            }
        }
    }
}

/// Usage that is charged under a card: as one request, or as a sum at the base rate.
#[derive(Debug, Clone, Copy, PartialEq, Eq, Structural)]
pub struct Charge {
    pub card: ModelPricing,
    pub usage: Usage,
    pub per_request: bool,
}

/// A session's cost with its provenance. With the basis `Unknown` there are no charges.
#[derive(Debug, Clone, PartialEq)]
pub struct SessionCost {
    pub charges: Vec<Charge>,
    pub basis: CostBasis,
    pub lane: CostLane,
}

impl SessionCost {
    /// A session without priced usage costs nothing.
    pub fn zero() -> (r: Self)
        ensures
            r.charges@ == Seq::<Charge>::empty(),
            r.basis is PerCall,
            r.lane is Billed,
    {
        SessionCost { charges: Vec::new(), basis: CostBasis::PerCall, lane: CostLane::Billed }
    }

    /// A session whose cost cannot be told.
    pub fn unknown() -> (r: Self)
        ensures
            r.charges@ == Seq::<Charge>::empty(),
            r.basis is Unknown,
            r.lane is Billed,
    {
        SessionCost { charges: Vec::new(), basis: CostBasis::Unknown, lane: CostLane::Billed }
    }

    /// The charges, or none when the basis is unknown.
    pub fn known(&self) -> (r: Option<&Vec<Charge>>)
        ensures
            match r {
                Some(c) => !(self.basis is Unknown) && *c == self.charges,
                None => self.basis is Unknown,
            },
    {
        match self.basis {
            CostBasis::Unknown => None,
            _ => Some(&self.charges),
        }
    }
}

/// Whether the provider is a flat-rate subscription, whose figures are what the tokens would have
/// cost on the metered lane.
pub open spec fn is_subscription(provider: Seq<char>) -> bool {
    provider == "anthropic_oauth"@ || provider == "openai_codex"@
}

/// Whether the provider is a flat-rate subscription.
pub fn is_api_equivalent_lane(provider_kind: &str) -> (r: bool)
    ensures
        r == is_subscription(provider_kind@),
{
    text::same(provider_kind, "anthropic_oauth") || text::same(provider_kind, "openai_codex")
}

/// Whether the rates of a table are usable: input and output rates are there, finite and not
/// negative, the read ratio is from zero to one, the write ratios are finite and not negative, and
/// a surcharge has finite factors of at least one and a threshold.
pub open spec fn usable(c: PricingConfig) -> bool {
    &&& c.input_per_mtok is Some && c.input_per_mtok->0.finite_nonnegative()
    &&& c.output_per_mtok is Some && c.output_per_mtok->0.finite_nonnegative()
    &&& c.cache_read_ratio is Some ==> c.cache_read_ratio->0.unit_range()
    &&& c.cache_write_5m_ratio is Some ==> c.cache_write_5m_ratio->0.finite_nonnegative()
    &&& c.cache_write_1h_ratio is Some ==> c.cache_write_1h_ratio->0.finite_nonnegative()
    &&& c.long_context is Some ==> c.long_context->0.input_mult.finite_from_one()
        && c.long_context->0.output_mult.finite_from_one() && c.long_context->0.prompt_threshold > 0
}

/// The card that a usable table gives. A ratio that is not stated is one; a one-hour ratio that is
/// not stated is the five-minute ratio.
pub open spec fn card_of(c: PricingConfig, inclusive: bool) -> ModelPricing {
    ModelPricing {
        input_per_mtok: c.input_per_mtok->0,
        output_per_mtok: c.output_per_mtok->0,
        cache_read_ratio: model_catalog::or(c.cache_read_ratio, Some(Double::one()))->0,
        cache_write_5m_ratio: model_catalog::or(c.cache_write_5m_ratio, Some(Double::one()))->0,
        cache_write_1h_ratio: model_catalog::or(
            c.cache_write_1h_ratio,
            model_catalog::or(c.cache_write_5m_ratio, Some(Double::one())),
        )->0,
        cache_read_in_input: inclusive,
        cache_creation_in_input: inclusive,
        long_context: match c.long_context {
            Some(t) => Some(
                LongContextTier {
                    prompt_threshold: t.prompt_threshold,
                    input_mult: t.input_mult,
                    output_mult: t.output_mult,
                },
            ),
            None => None,
        },
    }
}

fn ratio_or_one(r: Option<Double>) -> (d: Double)
    ensures
        d == model_catalog::or(r, Some(Double::one()))->0,
{
    match r {
        Some(d) => d,
        None => Double::of_one(),
    }
}

/// The card that a table gives, if its rates are usable.
pub fn card_from(card: &PricingConfig, inclusive: bool) -> (r: Option<ModelPricing>)
    ensures
        r == (if usable(*card) {
            Some(card_of(*card, inclusive))
        } else {
            None
        }),
{
    let (input, output) = match (card.input_per_mtok, card.output_per_mtok) {
        (Some(input), Some(output)) => (input, output),
        _ => {
            return None;
        },
    };
    if !input.is_finite_nonnegative() || !output.is_finite_nonnegative() {
        return None;
    }
    if let Some(ratio) = card.cache_read_ratio {
        if !ratio.is_unit_range() {
            return None;
        }
    }
    if let Some(ratio) = card.cache_write_5m_ratio {
        if !ratio.is_finite_nonnegative() {
            return None;
        }
    }
    if let Some(ratio) = card.cache_write_1h_ratio {
        if !ratio.is_finite_nonnegative() {
            return None;
        }
    }
    let long_context = match card.long_context {
        Some(t) => {
            if !t.input_mult.is_finite_from_one() || !t.output_mult.is_finite_from_one()
                || t.prompt_threshold == 0 {
                return None;
            }
            Some(
                LongContextTier {
                    prompt_threshold: t.prompt_threshold,
                    input_mult: t.input_mult,
                    output_mult: t.output_mult,
                },
            )
        },
        None => None,
    };
    let one_hour = match card.cache_write_1h_ratio {
        Some(ratio) => ratio,
        None => ratio_or_one(card.cache_write_5m_ratio),
    };
    Some(
        ModelPricing {
            input_per_mtok: input,
            output_per_mtok: output,
            cache_read_ratio: ratio_or_one(card.cache_read_ratio),
            cache_write_5m_ratio: ratio_or_one(card.cache_write_5m_ratio),
            cache_write_1h_ratio: one_hour,
            cache_read_in_input: inclusive,
            cache_creation_in_input: inclusive,
            long_context,
        },
    )
}

/// The provider by whose entry a lane is priced: the subscription lane of Anthropic is priced as
/// the metered one.
pub open spec fn pricing_provider(provider: Seq<char>) -> Seq<char> {
    if provider == "anthropic_oauth"@ {
        "anthropic_api"@
    } else {
        provider
    }
}

/// The card for a provider and a model: none if the provider is not in the catalog or not priced,
/// or the model has no usable table.
pub open spec fn card_for(
    catalog: &ModelCatalogConfig,
    provider: Seq<char>,
    model: Seq<char>,
) -> Option<ModelPricing> {
    match catalog.provider_for(pricing_provider(provider)) {
        Some(p) => match catalog.resolved(model).pricing {
            Some(c) => if p.priced == Some(false) || !usable(c) {
                None
            } else {
                Some(card_of(c, p.usage_semantics.deep_view() == Some("openai_style"@)))
            },
            None => None,
        },
        None => None,
    }
}

/// The card for a provider and a model. Which tokens count as fresh input follows the provider's
/// usage semantics.
pub fn for_model_in(
    catalog: &ModelCatalogConfig,
    provider_kind: &str,
    model: &str,
) -> (r: Option<ModelPricing>)
    ensures
        r == card_for(catalog, provider_kind@, model@),
{
    let lane_provider = if text::same(provider_kind, "anthropic_oauth") {
        "anthropic_api"
    } else {
        provider_kind
    };
    let provider = match catalog.provider(lane_provider) {
        Some(p) => p,
        None => {
            return None;
        },
    };
    if let Some(false) = provider.priced {
        return None;
    }
    let inclusive = model_catalog::opt_is(&provider.usage_semantics, "openai_style");
    match catalog.resolve_model(model).pricing {
        Some(card) => card_from(&card, inclusive),
        None => None,
    }
}

/// Why the pricing table of a model gives no card.
#[derive(Debug, Clone, Copy, PartialEq, Eq, Structural)]
pub enum PricingRefusal {
    /// A rate is missing.
    MissingRate,
    /// A rate, a ratio or the surcharge is out of range.
    InvalidTable,
}

impl PricingRefusal {
    /// The reason in words.
    pub open spec fn text(self) -> Seq<char> {
        match self {
            PricingRefusal::MissingRate =>
                "model catalog: pricing table missing input_per_mtok or output_per_mtok; the model prices as unknown"@,
            PricingRefusal::InvalidTable =>
                "model catalog: invalid pricing table (rates must be finite and >= 0, cache_read_ratio in 0..=1, cache_write ratios finite and >= 0, long_context multipliers finite and >= 1, prompt_threshold > 0); the model prices as unknown"@,
        }
    }

    /// The reason in words.
    pub fn message(&self) -> (r: &'static str)
        ensures
            r@ == self.text(),
    {
        match self {
            PricingRefusal::MissingRate =>
                "model catalog: pricing table missing input_per_mtok or output_per_mtok; the model prices as unknown",
            PricingRefusal::InvalidTable =>
                "model catalog: invalid pricing table (rates must be finite and >= 0, cache_read_ratio in 0..=1, cache_write ratios finite and >= 0, long_context multipliers finite and >= 1, prompt_threshold > 0); the model prices as unknown",
        }
    }
}

/// Why a table gives no card, if it gives none.
pub open spec fn refusal_of(c: PricingConfig) -> Option<PricingRefusal> {
    if c.input_per_mtok is None || c.output_per_mtok is None {
        Some(PricingRefusal::MissingRate)
    } else if !usable(c) {
        Some(PricingRefusal::InvalidTable)
    } else {
        None
    }
}

/// Why the table that a provider is priced by gives no card for a model. There is no reason if
/// there is a card, or if there is no table to begin with: the provider is not in the catalog or
/// not priced, or the model has none.
pub open spec fn refusal_for(
    catalog: &ModelCatalogConfig,
    provider: Seq<char>,
    model: Seq<char>,
) -> Option<PricingRefusal> {
    match catalog.provider_for(pricing_provider(provider)) {
        Some(p) => match catalog.resolved(model).pricing {
            Some(c) => if p.priced == Some(false) {
                None
            } else {
                refusal_of(c)
            },
            None => None,
        },
        None => None,
    }
}

/// Why the table that a provider is priced by gives no card for a model, if there is a table and
/// it gives none.
pub fn refusal_in(catalog: &ModelCatalogConfig, provider_kind: &str, model: &str) -> (r: Option<
    PricingRefusal,
>)
    ensures
        r == refusal_for(catalog, provider_kind@, model@),
{
    let lane_provider = if text::same(provider_kind, "anthropic_oauth") {
        "anthropic_api"
    } else {
        provider_kind
    };
    let provider = match catalog.provider(lane_provider) {
        Some(p) => p,
        None => {
            return None;
        },
    };
    if let Some(false) = provider.priced {
        return None;
    }
    match catalog.resolve_model(model).pricing {
        Some(card) => if card.input_per_mtok.is_none() || card.output_per_mtok.is_none() {
            Some(PricingRefusal::MissingRate)
        } else if card_from(&card, false).is_none() {
            Some(PricingRefusal::InvalidTable)
        } else {
            None
        },
        None => None,
    }
}

/// A table that is refused gives no card, and where a priced provider has a table for a model, it
/// gives a card or is refused.
pub proof fn law_tables_give_a_card_or_a_reason(
    catalog: &ModelCatalogConfig,
    provider: Seq<char>,
    model: Seq<char>,
)
    ensures
        refusal_for(catalog, provider, model) is Some ==> card_for(catalog, provider, model)
            is None,
        ({
            let p = catalog.provider_for(pricing_provider(provider));
            p is Some && p->0.priced != Some(false) && catalog.resolved(model).pricing is Some
        }) ==> (card_for(catalog, provider, model) is Some <==> refusal_for(
            catalog,
            provider,
            model,
        ) is None),
{
}

/// A card that exists has usable rates: no rate is negative or infinite or not a number, reads are
/// not dearer than fresh input, and a surcharge never lowers the price.
pub proof fn law_cards_are_valid(
    catalog: &ModelCatalogConfig,
    provider: Seq<char>,
    model: Seq<char>,
)
    requires
        card_for(catalog, provider, model) is Some,
    ensures
        ({
            let card = card_for(catalog, provider, model)->0;
            &&& card.input_per_mtok.finite_nonnegative()
            &&& card.output_per_mtok.finite_nonnegative()
            &&& card.cache_read_ratio.unit_range()
            &&& card.cache_write_5m_ratio.finite_nonnegative()
            &&& card.cache_write_1h_ratio.finite_nonnegative()
            &&& card.long_context matches Some(t) ==> t.input_mult.finite_from_one()
                && t.output_mult.finite_from_one() && t.prompt_threshold > 0
        }),
{
}

/// The subscription lane of Anthropic has the card of the metered lane.
pub proof fn law_subscription_lane_has_the_metered_card(
    catalog: &ModelCatalogConfig,
    model: Seq<char>,
)
    ensures
        card_for(catalog, "anthropic_oauth"@, model) == card_for(catalog, "anthropic_api"@, model),
{
}

/// No token is charged twice: where the input count holds cache reads and writes and covers them,
/// fresh input, reads and writes together are the input count.
pub proof fn law_inclusive_input_is_charged_once(card: ModelPricing, u: Usage)
    requires
        card.cache_read_in_input,
        card.cache_creation_in_input,
        agent::tokens(u.cache_read_input_tokens) + written(writes_of(u)) <= u.input_tokens,
    ensures
        card.charged(u, true).fresh + card.charged(u, true).reads + written(
            card.charged(u, true).writes,
        ) == u.input_tokens,
        card.prompt_size(u) == u.input_tokens,
{
}

/// A surcharge applies to a request exactly if its own prompt exceeds the threshold, and never to
/// a sum.
pub proof fn law_surcharge_is_per_request(card: ModelPricing, u: Usage, t: LongContextTier)
    requires
        card.long_context == Some(t),
    ensures
        card.charged(u, true).surcharge is Some <==> card.prompt_size(u) > t.prompt_threshold,
        card.charged(u, false).surcharge is None,
{
}

/// The base rate charges the same tokens as the rate of a request, and differs from it by the
/// surcharge alone; of a card in the catalog the multipliers of the surcharge are at least one.
pub proof fn law_base_rate_leaves_out_only_the_surcharge(
    catalog: &ModelCatalogConfig,
    provider: Seq<char>,
    model: Seq<char>,
    u: Usage,
)
    requires
        card_for(catalog, provider, model) is Some,
    ensures
        ({
            let card = card_for(catalog, provider, model)->0;
            let base = card.charged(u, false);
            let full = card.charged(u, true);
            &&& base == (TokenSplit { surcharge: None, ..full })
            &&& full.surcharge matches Some(t) ==> t.input_mult.finite_from_one()
                && t.output_mult.finite_from_one()
            &&& card.long_context is None ==> base == full
        }),
{
    law_cards_are_valid(catalog, provider, model);
}

/// The tokens that a usage reports as written to the cache: the two tiers together if both are
/// reported, and else the count that is not split.
pub open spec fn cache_written(u: Usage) -> nat {
    if u.cache_creation_5m_input_tokens is Some && u.cache_creation_1h_input_tokens is Some {
        agent::count(u, 4) + agent::count(u, 5)
    } else {
        agent::count(u, 3)
    }
}

/// Every token is charged, at its own rate: output and cache reads as they were reported, cache
/// writes by tier if both tiers were reported, and of the input what is left of it once the reads
/// and the writes that it holds are taken out.
pub proof fn law_every_token_has_its_rate(card: ModelPricing, u: Usage, apply_tier: bool)
    ensures
        ({
            let c = card.charged(u, apply_tier);
            &&& c.output == agent::count(u, 1)
            &&& c.reads == agent::count(u, 2)
            &&& u.cache_creation_5m_input_tokens is Some
                && u.cache_creation_1h_input_tokens is Some ==> c.writes is Tiered
                && c.writes->five_minutes == agent::count(u, 4) && c.writes->one_hour
                == agent::count(u, 5)
            &&& u.cache_creation_5m_input_tokens is None
                || u.cache_creation_1h_input_tokens is None ==> c.writes is Flat
                && c.writes->tokens == agent::count(u, 3)
            &&& written(c.writes) == cache_written(u)
            &&& !card.cache_read_in_input && !card.cache_creation_in_input ==> c.fresh
                == agent::count(u, 0)
            &&& card.cache_read_in_input && !card.cache_creation_in_input && agent::count(u, 2)
                <= agent::count(u, 0) ==> c.fresh + c.reads == agent::count(u, 0)
            &&& !card.cache_read_in_input && card.cache_creation_in_input && cache_written(u)
                <= agent::count(u, 0) ==> c.fresh + cache_written(u) == agent::count(u, 0)
            &&& card.cache_read_in_input && card.cache_creation_in_input && agent::count(u, 2)
                + cache_written(u) <= agent::count(u, 0) ==> c.fresh + c.reads + cache_written(u)
                == agent::count(u, 0)
            &&& card.cache_read_in_input && agent::count(u, 2) > agent::count(u, 0) ==> c.fresh == 0
            &&& card.cache_creation_in_input && cache_written(u) > agent::count(u, 0) ==> c.fresh
                == 0
            &&& card.cache_read_in_input && card.cache_creation_in_input && agent::count(u, 2)
                + cache_written(u) > agent::count(u, 0) ==> c.fresh == 0
        }),
{
}

/// A prompt holds the input, and the reads and the writes that the input does not hold; it is
/// surcharged with the tier of the card exactly if it is larger than the threshold and is one
/// request.
pub proof fn law_large_prompts_are_surcharged(card: ModelPricing, u: Usage)
    ensures
        ({
            let prompt = agent::count(u, 0) + (if card.cache_read_in_input {
                0
            } else {
                agent::count(u, 2)
            }) + (if card.cache_creation_in_input {
                0
            } else {
                cache_written(u)
            });
            &&& card.prompt_size(u) == prompt
            &&& card.charged(u, false).surcharge is None
            &&& card.long_context is None ==> card.charged(u, true).surcharge is None
            &&& card.long_context matches Some(t) ==> {
                &&& prompt > t.prompt_threshold ==> card.charged(u, true).surcharge
                    == card.long_context
                &&& prompt <= t.prompt_threshold ==> card.charged(u, true).surcharge is None
            }
        }),
{
}

/// What a session declares goes before the card, and what it does not declare stays; the rates stay
/// in any case.
pub proof fn law_declared_semantics_go_before_the_card(
    card: ModelPricing,
    s: Option<UsageSemantics>,
)
    ensures
        ({
            let c = card.with_semantics(s);
            &&& s is Some && s->0.cache_read_in_input is Some ==> Some(c.cache_read_in_input)
                == s->0.cache_read_in_input
            &&& s is None || s->0.cache_read_in_input is None ==> c.cache_read_in_input
                == card.cache_read_in_input
            &&& s is Some && s->0.cache_creation_in_input is Some ==> Some(
                c.cache_creation_in_input,
            ) == s->0.cache_creation_in_input
            &&& s is None || s->0.cache_creation_in_input is None ==> c.cache_creation_in_input
                == card.cache_creation_in_input
            &&& c.input_per_mtok == card.input_per_mtok
            &&& c.output_per_mtok == card.output_per_mtok
            &&& c.cache_read_ratio == card.cache_read_ratio
            &&& c.cache_write_5m_ratio == card.cache_write_5m_ratio
            &&& c.cache_write_1h_ratio == card.cache_write_1h_ratio
            &&& c.long_context == card.long_context
        }),
{
}

/// A card has the rates, ratios and surcharge of the table as they are stated. A ratio that is not
/// stated is one, and a one-hour ratio that is not stated is the five-minute ratio.
pub proof fn law_cards_hold_what_tables_state(c: PricingConfig, inclusive: bool)
    requires
        usable(c),
    ensures
        ({
            let card = card_of(c, inclusive);
            &&& c.input_per_mtok == Some(card.input_per_mtok)
            &&& c.output_per_mtok == Some(card.output_per_mtok)
            &&& c.cache_read_ratio is Some ==> c.cache_read_ratio == Some(card.cache_read_ratio)
            &&& c.cache_read_ratio is None ==> card.cache_read_ratio.bits == 0x3FF0_0000_0000_0000
            &&& c.cache_write_5m_ratio is Some ==> c.cache_write_5m_ratio == Some(
                card.cache_write_5m_ratio,
            )
            &&& c.cache_write_5m_ratio is None ==> card.cache_write_5m_ratio.bits
                == 0x3FF0_0000_0000_0000
            &&& c.cache_write_1h_ratio is Some ==> c.cache_write_1h_ratio == Some(
                card.cache_write_1h_ratio,
            )
            &&& c.cache_write_1h_ratio is None ==> card.cache_write_1h_ratio
                == card.cache_write_5m_ratio
            &&& card.cache_read_in_input == inclusive
            &&& card.cache_creation_in_input == inclusive
            &&& card.long_context is Some <==> c.long_context is Some
            &&& c.long_context matches Some(t) ==> card.long_context->0.prompt_threshold
                == t.prompt_threshold && card.long_context->0.input_mult == t.input_mult
                && card.long_context->0.output_mult == t.output_mult
        }),
{
}

/// Whether a rate is stated and can be charged: a finite number that is not negative.
pub open spec fn is_rate(d: Option<Double>) -> bool {
    d is Some && (d->0.bits < 0x7FF0_0000_0000_0000 || d->0.bits == 0x8000_0000_0000_0000)
}

/// A table is usable exactly if both rates are there and can be charged, what it states of ratios
/// can be charged, reads at most at the full rate, and a surcharge starts above zero and raises
/// every price or leaves it.
pub proof fn law_tables_that_can_be_used(c: PricingConfig)
    ensures
        usable(c) <==> {
            &&& is_rate(c.input_per_mtok)
            &&& is_rate(c.output_per_mtok)
            &&& c.cache_read_ratio is None || c.cache_read_ratio->0.bits <= 0x3FF0_0000_0000_0000
                || c.cache_read_ratio->0.bits == 0x8000_0000_0000_0000
            &&& c.cache_write_5m_ratio is None || is_rate(c.cache_write_5m_ratio)
            &&& c.cache_write_1h_ratio is None || is_rate(c.cache_write_1h_ratio)
            &&& c.long_context is None || {
                &&& 0x3FF0_0000_0000_0000 <= c.long_context->0.input_mult.bits
                    < 0x7FF0_0000_0000_0000
                &&& 0x3FF0_0000_0000_0000 <= c.long_context->0.output_mult.bits
                    < 0x7FF0_0000_0000_0000
                &&& c.long_context->0.prompt_threshold >= 1
            }
        },
        refusal_of(c) == Some(PricingRefusal::MissingRate) <==> c.input_per_mtok is None
            || c.output_per_mtok is None,
        refusal_of(c) is None <==> usable(c),
{
}

/// There is a card exactly if the provider that prices the lane is in the catalog and not left out
/// of pricing, and the model has a usable table; and the card is that of the table, with the cache
/// held by the input exactly for providers of that convention.
pub proof fn law_cards_come_from_provider_and_table(
    catalog: &ModelCatalogConfig,
    provider: Seq<char>,
    model: Seq<char>,
)
    ensures
        ({
            let by = if provider == "anthropic_oauth"@ {
                catalog.provider_for("anthropic_api"@)
            } else {
                catalog.provider_for(provider)
            };
            let table = catalog.resolved(model).pricing;
            let there = by is Some && by->0.priced != Some(false) && table is Some && usable(
                table->0,
            );
            &&& card_for(catalog, provider, model) is Some <==> there
            &&& there && by->0.usage_semantics.deep_view() == Some("openai_style"@) ==> card_for(
                catalog,
                provider,
                model,
            ) == Some(card_of(table->0, true))
            &&& there && by->0.usage_semantics.deep_view() != Some("openai_style"@) ==> card_for(
                catalog,
                provider,
                model,
            ) == Some(card_of(table->0, false))
            &&& refusal_for(catalog, provider, model) is Some <==> by is Some && by->0.priced
                != Some(false) && table is Some && !usable(table->0)
        }),
{
}

/// One request is surcharged if it is large, and a sum never; all else is charged alike.
pub proof fn law_requests_and_sums_are_charged(
    card: &ModelPricing,
    usage: &Usage,
    request: TokenSplit,
    sum: TokenSplit,
)
    requires
        call_ensures(ModelPricing::cost, (card, usage), request),
        call_ensures(ModelPricing::base_rate_cost, (card, usage), sum),
    ensures
        sum.surcharge is None,
        request.fresh == sum.fresh && request.reads == sum.reads && request.writes == sum.writes
            && request.output == sum.output,
        request.output == agent::count(*usage, 1),
        request.reads == agent::count(*usage, 2),
        card.long_context matches Some(t) ==> (request.surcharge is Some <==> card.prompt_size(
            *usage,
        ) > t.prompt_threshold),
        request.surcharge is Some ==> request.surcharge == card.long_context,
{
    law_every_token_has_its_rate(*card, *usage, true);
}

/// A table gives a card exactly if it is usable, and a session has charges to show exactly if its
/// cost is known.
pub proof fn law_usable_tables_give_cards(
    table: &PricingConfig,
    inclusive: bool,
    r: Option<ModelPricing>,
    cost: &SessionCost,
    known: Option<&Vec<Charge>>,
)
    requires
        call_ensures(card_from, (table, inclusive), r),
        call_ensures(SessionCost::known, (cost,), known),
    ensures
        r is Some <==> usable(*table),
        r is Some ==> table.input_per_mtok == Some(r->0.input_per_mtok) && table.output_per_mtok
            == Some(r->0.output_per_mtok) && r->0.cache_read_in_input == inclusive
            && r->0.cache_creation_in_input == inclusive,
        known is None <==> cost.basis is Unknown,
        known is Some ==> *known->0 == cost.charges,
{
}

} // verus!
