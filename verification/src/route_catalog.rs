//! The catalog of routes: the combinations of provider and model that can be selected.
use vstd::prelude::*;

use crate::double::Double;
use crate::model_catalog;
use crate::model_catalog::{
    FavoriteConfig, ModelCatalogConfig, ModelCatalogEntry, ResolvedModelSettings, SettingsView,
};
use crate::pricing;
use crate::seqs;
use crate::string_map::StringMap;
use crate::text;

verus! {

/// A favorite that names a route.
#[derive(Debug, Clone, PartialEq)]
pub struct RouteFavorite {
    pub name: String,
    pub label: Option<String>,
    pub aliases: Vec<String>,
    pub default_effort: Option<String>,
    pub tools: Option<Vec<String>>,
}

/// The contents of a [`RouteFavorite`].
pub struct RouteFavoriteView {
    pub name: Seq<char>,
    pub label: Option<Seq<char>>,
    pub aliases: Seq<Seq<char>>,
    pub default_effort: Option<Seq<char>>,
    pub tools: Option<Seq<Seq<char>>>,
}

impl DeepView for RouteFavorite {
    type V = RouteFavoriteView;

    open spec fn deep_view(&self) -> RouteFavoriteView {
        RouteFavoriteView {
            name: self.name@,
            label: self.label.deep_view(),
            aliases: self.aliases.deep_view(),
            default_effort: self.default_effort.deep_view(),
            tools: self.tools.deep_view(),
        }
    }
}

/// A route, with what is known of its provider and its model.
#[derive(Debug, Clone, PartialEq)]
pub struct RouteEntry {
    pub provider_kind: String,
    pub model: String,
    /// Whether the provider can be used.
    pub configured: bool,
    pub provider_label: Option<String>,
    pub provider_aliases: Vec<String>,
    pub provider_quirks: Vec<String>,
    pub label: Option<String>,
    pub aliases: Vec<String>,
    pub quirks: Vec<String>,
    pub max_output_tokens: Option<u32>,
    pub favorites: Vec<RouteFavorite>,
    pub context_soft_limit: Option<u64>,
    pub context_hard_limit: Option<u64>,
    pub valid_effort_levels: Option<Vec<String>>,
    pub default_effort: Option<String>,
    pub pricing_input_per_mtok: Option<Double>,
    pub pricing_output_per_mtok: Option<Double>,
    /// Tells a pick from this catalog apart from one made before its limits changed.
    pub hash: String,
}

/// The contents of a [`RouteEntry`].
pub struct RouteEntryView {
    pub provider_kind: Seq<char>,
    pub model: Seq<char>,
    pub configured: bool,
    pub provider_label: Option<Seq<char>>,
    pub provider_aliases: Seq<Seq<char>>,
    pub provider_quirks: Seq<Seq<char>>,
    pub label: Option<Seq<char>>,
    pub aliases: Seq<Seq<char>>,
    pub quirks: Seq<Seq<char>>,
    pub max_output_tokens: Option<u32>,
    pub favorites: Seq<RouteFavoriteView>,
    pub context_soft_limit: Option<u64>,
    pub context_hard_limit: Option<u64>,
    pub valid_effort_levels: Option<Seq<Seq<char>>>,
    pub default_effort: Option<Seq<char>>,
    pub pricing_input_per_mtok: Option<Double>,
    pub pricing_output_per_mtok: Option<Double>,
    pub hash: Seq<char>,
}

impl DeepView for RouteEntry {
    type V = RouteEntryView;

    open spec fn deep_view(&self) -> RouteEntryView {
        RouteEntryView {
            provider_kind: self.provider_kind@,
            model: self.model@,
            configured: self.configured,
            provider_label: self.provider_label.deep_view(),
            provider_aliases: self.provider_aliases.deep_view(),
            provider_quirks: self.provider_quirks.deep_view(),
            label: self.label.deep_view(),
            aliases: self.aliases.deep_view(),
            quirks: self.quirks.deep_view(),
            max_output_tokens: self.max_output_tokens,
            favorites: self.favorites.deep_view(),
            context_soft_limit: self.context_soft_limit,
            context_hard_limit: self.context_hard_limit,
            valid_effort_levels: self.valid_effort_levels.deep_view(),
            default_effort: self.default_effort.deep_view(),
            pricing_input_per_mtok: self.pricing_input_per_mtok,
            pricing_output_per_mtok: self.pricing_output_per_mtok,
            hash: self.hash@,
        }
    }
}

/// Which providers have their credentials, or their address, at hand.
#[derive(Debug, Clone, Copy, PartialEq, Eq, Structural)]
pub struct ProviderAvailability {
    pub anthropic_key: bool,
    pub openai_key: bool,
    pub openrouter_key: bool,
    pub vllm_configured: bool,
}

impl ProviderAvailability {
    /// Whether a provider can be used. Local providers always can; unknown ones cannot.
    pub open spec fn available(self, provider: Seq<char>) -> bool {
        if provider == "anthropic_api"@ || provider == "anthropic_oauth"@ {
            self.anthropic_key
        } else if provider == "openai_codex"@ || provider == "openai_api"@ {
            self.openai_key
        } else if provider == "openrouter"@ {
            self.openrouter_key
        } else if provider == "vllm"@ {
            self.vllm_configured
        } else {
            provider == "ollama"@ || provider == "faux"@
        }
    }

    /// Everything at hand.
    pub fn all_configured() -> (r: Self)
        ensures
            r.anthropic_key && r.openai_key && r.openrouter_key && r.vllm_configured,
    {
        ProviderAvailability {
            anthropic_key: true,
            openai_key: true,
            openrouter_key: true,
            vllm_configured: true,
        }
    }

    /// Whether a provider can be used.
    pub fn configured(self, provider_kind: &str) -> (r: bool)
        ensures
            r == self.available(provider_kind@),
    {
        if text::same(provider_kind, "anthropic_api") || text::same(
            provider_kind,
            "anthropic_oauth",
        ) {
            self.anthropic_key
        } else if text::same(provider_kind, "openai_codex") || text::same(
            provider_kind,
            "openai_api",
        ) {
            self.openai_key
        } else if text::same(provider_kind, "openrouter") {
            self.openrouter_key
        } else if text::same(provider_kind, "vllm") {
            self.vllm_configured
        } else {
            text::same(provider_kind, "ollama") || text::same(provider_kind, "faux")
        }
    }
}

/// The effort levels of a provider whose model states none.
pub open spec fn fallback_levels(provider: Seq<char>) -> Seq<Seq<char>> {
    if provider == "anthropic_api"@ || provider == "anthropic_oauth"@ {
        seq!["low"@, "medium"@, "high"@, "xhigh"@, "max"@]
    } else if provider == "openai_codex"@ || provider == "openai_api"@ {
        seq!["low"@, "medium"@, "high"@, "xhigh"@]
    } else if provider == "ollama"@ {
        seq!["off"@, "on"@]
    } else {
        Seq::empty()
    }
}

/// The effort that a provider uses unless told otherwise.
pub open spec fn preferred_effort(provider: Seq<char>) -> Option<Seq<char>> {
    if provider == "anthropic_api"@ || provider == "anthropic_oauth"@ || provider
        == "openai_codex"@ || provider == "openai_api"@ {
        Some("medium"@)
    } else if provider == "ollama"@ {
        Some("on"@)
    } else {
        None
    }
}

/// The effort that a provider uses among `levels`: the preferred one if it is there, else the
/// first.
pub open spec fn default_among(provider: Seq<char>, levels: Seq<Seq<char>>) -> Option<Seq<char>> {
    match preferred_effort(provider) {
        Some(p) => if levels.contains(p) {
            Some(p)
        } else if levels.len() > 0 {
            Some(levels[0])
        } else {
            None
        },
        None => None,
    }
}

/// The effort levels of a route: the model's own, else the provider's.
pub open spec fn levels_of(provider: Seq<char>, s: SettingsView) -> Seq<Seq<char>> {
    model_catalog::or_seq(s.effort_levels, fallback_levels(provider))
}

/// The default effort of a route: the model's own, else the provider's.
pub open spec fn default_of(provider: Seq<char>, s: SettingsView) -> Option<Seq<char>> {
    model_catalog::or(s.default_effort, default_among(provider, levels_of(provider, s)))
}

/// `levels`, or none if there are none.
pub open spec fn some_levels(levels: Seq<Seq<char>>) -> Option<Seq<Seq<char>>> {
    if levels.len() > 0 {
        Some(levels)
    } else {
        None
    }
}

fn strings2(a: &str, b: &str) -> (r: Vec<String>)
    ensures
        r.deep_view() == seq![a@, b@],
{
    let r = vec![a.to_owned(), b.to_owned()];
    proof {
        assert(r.deep_view() =~= seq![a@, b@]);
    }
    r
}

fn strings4(a: &str, b: &str, c: &str, d: &str) -> (r: Vec<String>)
    ensures
        r.deep_view() == seq![a@, b@, c@, d@],
{
    let r = vec![a.to_owned(), b.to_owned(), c.to_owned(), d.to_owned()];
    proof {
        assert(r.deep_view() =~= seq![a@, b@, c@, d@]);
    }
    r
}

/// The effort levels of a provider whose model states none.
pub fn provider_effort_fallback(provider_kind: &str) -> (r: Vec<String>)
    ensures
        r.deep_view() == fallback_levels(provider_kind@),
{
    if text::same(provider_kind, "anthropic_api") || text::same(provider_kind, "anthropic_oauth") {
        let mut r = strings4("low", "medium", "high", "xhigh");
        r.push("max".to_owned());
        proof {
            assert(r.deep_view() =~= seq!["low"@, "medium"@, "high"@, "xhigh"@].push("max"@));
            assert(r.deep_view() =~= seq!["low"@, "medium"@, "high"@, "xhigh"@, "max"@]);
        }
        r
    } else if text::same(provider_kind, "openai_codex") || text::same(provider_kind, "openai_api") {
        strings4("low", "medium", "high", "xhigh")
    } else if text::same(provider_kind, "ollama") {
        strings2("off", "on")
    } else {
        let r: Vec<String> = Vec::new();
        proof {
            assert(r.deep_view() =~= Seq::empty());
        }
        r
    }
}

/// The effort that a provider uses among `levels`.
pub fn provider_default_effort(provider_kind: &str, levels: &Vec<String>) -> (r: Option<String>)
    ensures
        r.deep_view() == default_among(provider_kind@, levels.deep_view()),
{
    let preferred = if text::same(provider_kind, "anthropic_api") || text::same(
        provider_kind,
        "anthropic_oauth",
    ) || text::same(provider_kind, "openai_codex") || text::same(provider_kind, "openai_api") {
        "medium"
    } else if text::same(provider_kind, "ollama") {
        "on"
    } else {
        return None;
    };
    let mut i: usize = 0;
    while i < levels.len()
        invariant
            i <= levels@.len(),
            preferred_effort(provider_kind@) == Some(preferred@),
            forall|j: int| 0 <= j < i ==> (#[trigger] levels.deep_view()[j]) != preferred@,
        decreases levels@.len() - i,
    {
        if text::same(&levels[i], preferred) {
            proof {
                assert(levels.deep_view()[i as int] == preferred@);
            }
            return Some(levels[i].clone());
        }
        i += 1;
    }
    if levels.len() > 0 {
        proof {
            assert(levels.deep_view()[0] == levels@[0]@);
        }
        Some(levels[0].clone())
    } else {
        None
    }
}

/// The effort levels and the default effort of a route. The model's own settings come before the
/// provider's.
pub fn effort_config(provider_kind: &str, model_settings: &ResolvedModelSettings) -> (r: (
    Option<Vec<String>>,
    Option<String>,
))
    ensures
        r.0.deep_view() == some_levels(levels_of(provider_kind@, model_settings.deep_view())),
        r.1.deep_view() == default_of(provider_kind@, model_settings.deep_view()),
{
    let levels = if model_settings.effort_levels.len() > 0 {
        let levels = model_settings.effort_levels.clone();
        proof {
            assert(levels.deep_view() =~= model_settings.effort_levels.deep_view());
        }
        levels
    } else {
        provider_effort_fallback(provider_kind)
    };
    let default = match &model_settings.default_effort {
        Some(e) => Some(e.clone()),
        None => provider_default_effort(provider_kind, &levels),
    };
    if levels.len() > 0 {
        (Some(levels), default)
    } else {
        (None, default)
    }
}

/// The effort levels and the default effort of a provider and a model.
pub fn effort_config_for(catalog: &ModelCatalogConfig, provider_kind: &str, model: &str) -> (r: (
    Option<Vec<String>>,
    Option<String>,
))
    ensures
        r.0.deep_view() == some_levels(levels_of(provider_kind@, catalog.resolved(model@))),
        r.1.deep_view() == default_of(provider_kind@, catalog.resolved(model@)),
{
    let settings = catalog.resolve_model(model);
    effort_config(provider_kind, &settings)
}

/// The provider that a file of generated models is for.
pub open spec fn generated_for(file_name: Seq<char>) -> Option<Seq<char>> {
    if text::has_prefix(file_name, "models.generated."@) {
        let rest = file_name.skip("models.generated."@.len() as int);
        if text::has_suffix(rest, ".toml"@) {
            Some(rest.take(rest.len() - ".toml"@.len()))
        } else {
            None
        }
    } else {
        None
    }
}

/// The provider that a file of generated models is for, by the file's name.
pub fn generated_provider(file_name: &str) -> (r: Option<String>)
    ensures
        r.deep_view() == generated_for(file_name@),
{
    match text::strip_prefix(file_name, "models.generated.") {
        Some(rest) => match text::strip_suffix(rest, ".toml") {
            Some(provider) => Some(provider.to_owned()),
            None => None,
        },
        None => None,
    }
}

/// The kind of a provider: that of its entry, if there is one that states it.
pub open spec fn kind_of(catalog: &ModelCatalogConfig, provider: Seq<char>) -> Seq<char> {
    match catalog.provider_for(provider) {
        Some(p) => match p.kind {
            Some(k) => k@,
            None => provider,
        },
        None => provider,
    }
}

/// The kind of a provider.
pub fn canonical_provider_kind(catalog: &ModelCatalogConfig, provider: &str) -> (r: String)
    ensures
        r@ == kind_of(catalog, provider@),
{
    match catalog.provider(provider) {
        Some(p) => match &p.kind {
            Some(k) => k.clone(),
            None => provider.to_owned(),
        },
        None => provider.to_owned(),
    }
}

/// The favorite `f` under the name `name`.
pub open spec fn favorite_view(name: Seq<char>, f: FavoriteConfig) -> RouteFavoriteView {
    RouteFavoriteView {
        name,
        label: f.label.deep_view(),
        aliases: f.aliases.deep_view(),
        default_effort: f.default_effort.deep_view(),
        tools: f.tools.deep_view(),
    }
}

fn copy_list(v: &Vec<String>) -> (r: Vec<String>)
    ensures
        r.deep_view() == v.deep_view(),
{
    let r = v.clone();
    proof {
        assert(r.deep_view() =~= v.deep_view());
    }
    r
}

fn copy_favorite(name: &str, f: &FavoriteConfig) -> (r: RouteFavorite)
    ensures
        r.deep_view() == favorite_view(name@, *f),
{
    RouteFavorite {
        name: name.to_owned(),
        label: f.label.clone(),
        aliases: copy_list(&f.aliases),
        default_effort: f.default_effort.clone(),
        tools: match &f.tools {
            Some(t) => Some(copy_list(t)),
            None => None,
        },
    }
}

/// The favorites of a route, in the order of their names.
pub open spec fn favorites_of(
    catalog: &ModelCatalogConfig,
    provider: Seq<char>,
    model: Seq<char>,
) -> Seq<RouteFavoriteView> {
    catalog.favorites.pairs().filter(
        |e: (Seq<char>, FavoriteConfig)| catalog.is_favorite_for(e.1, provider, model),
    ).map_values(|e: (Seq<char>, FavoriteConfig)| favorite_view(e.0, e.1))
}

fn route_favorites(catalog: &ModelCatalogConfig, provider_kind: &str, model: &str) -> (r: Vec<
    RouteFavorite,
>)
    ensures
        r.deep_view() == favorites_of(catalog, provider_kind@, model@),
{
    let found = catalog.favorites_for(provider_kind, model);
    let ghost all = catalog.favorites.pairs().filter(
        |e: (Seq<char>, FavoriteConfig)| catalog.is_favorite_for(e.1, provider_kind@, model@),
    );
    let mut r: Vec<RouteFavorite> = Vec::new();
    let mut i: usize = 0;
    while i < found.len()
        invariant
            i <= found@.len(),
            r@.len() == i,
            found@.len() == all.len(),
            forall|j: int| 0 <= j < found@.len() ==> ((#[trigger] found@[j]).0@, *found@[j].1) == all[j],
            forall|j: int|
                0 <= j < i ==> (#[trigger] r@[j]).deep_view() == favorite_view(
                    all[j].0,
                    all[j].1,
                ),
        decreases found@.len() - i,
    {
        let pair = found[i];
        r.push(copy_favorite(pair.0, pair.1));
        i += 1;
    }
    proof {
        assert(r.deep_view() =~= favorites_of(catalog, provider_kind@, model@));
    }
    r
}

/// The BLAKE3 hash of a text, in hexadecimal.
pub uninterp spec fn blake3_hex(text: Seq<char>) -> Seq<char>;

/// Whether every character of `s` is a lower-case hexadecimal digit.
pub open spec fn hex_digits(s: Seq<char>) -> bool {
    forall|i: int|
        0 <= i < s.len() ==> ('0' <= #[trigger] s[i] && s[i] <= '9') || ('a' <= s[i] && s[i]
            <= 'f')
}

/// Calls `blake3::hash` on the bytes of `text` and `to_hex` on its result, which is a function of
/// these bytes alone and has two lower-case digits for each of thirty-two bytes.
#[verifier::external_body]
fn hash_hex(text: &str) -> (r: String)
    ensures
        r@ == blake3_hex(text@),
        r@.len() == 64,
        hex_digits(r@),
{
    blake3::hash(text.as_bytes()).to_hex().as_str().to_owned()
}

/// What the hash of a route is taken of: provider, model and the two limits, an unknown limit
/// counting as zero.
pub open spec fn hash_input(
    provider: Seq<char>,
    model: Seq<char>,
    soft: Option<u64>,
    hard: Option<u64>,
) -> Seq<char> {
    provider + ":"@ + model + ":"@ + text::decimal_view(
        model_catalog::or(soft, Some(0u64))->0 as nat,
    ) + ":"@ + text::decimal_view(model_catalog::or(hard, Some(0u64))->0 as nat)
}

/// The part of a hash that a route carries.
pub open spec fn short_hash(hex: Seq<char>) -> Seq<char> {
    if hex.len() >= 16 {
        hex.take(16)
    } else {
        Seq::empty()
    }
}

/// A route as the catalog describes it. The model's own limits come before `soft` and `hard`;
/// rates come from `rates`; `hex` is the hash of the route in hexadecimal.
pub open spec fn entry_view(
    catalog: &ModelCatalogConfig,
    rates: &ModelCatalogConfig,
    provider: Seq<char>,
    model: Seq<char>,
    configured: bool,
    soft: Option<u64>,
    hard: Option<u64>,
    hex: Seq<char>,
) -> RouteEntryView {
    let s = catalog.resolved(model);
    let p = catalog.provider_for(provider);
    let card = pricing::card_for(rates, provider, model);
    RouteEntryView {
        provider_kind: provider,
        model,
        configured,
        provider_label: match p {
            Some(p) => p.label.deep_view(),
            None => None,
        },
        provider_aliases: match p {
            Some(p) => p.aliases.deep_view(),
            None => Seq::empty(),
        },
        provider_quirks: match p {
            Some(p) => p.quirks.deep_view(),
            None => Seq::empty(),
        },
        label: s.label,
        aliases: s.aliases,
        quirks: s.quirks,
        max_output_tokens: s.max_output_tokens,
        favorites: favorites_of(catalog, provider, model),
        context_soft_limit: model_catalog::or(s.context_soft_limit, soft),
        context_hard_limit: model_catalog::or(s.context_hard_limit, hard),
        valid_effort_levels: some_levels(levels_of(provider, s)),
        default_effort: default_of(provider, s),
        pricing_input_per_mtok: match card {
            Some(c) => Some(c.input_per_mtok),
            None => None,
        },
        pricing_output_per_mtok: match card {
            Some(c) => Some(c.output_per_mtok),
            None => None,
        },
        hash: short_hash(hex),
    }
}

/// The hash input of the route that [`entry_view`] describes.
pub open spec fn route_input(
    catalog: &ModelCatalogConfig,
    provider: Seq<char>,
    model: Seq<char>,
    soft: Option<u64>,
    hard: Option<u64>,
) -> Seq<char> {
    hash_input(
        provider,
        model,
        model_catalog::or(catalog.resolved(model).context_soft_limit, soft),
        model_catalog::or(catalog.resolved(model).context_hard_limit, hard),
    )
}

/// A route with the hash that its input has.
pub open spec fn built(
    catalog: &ModelCatalogConfig,
    rates: &ModelCatalogConfig,
    provider: Seq<char>,
    model: Seq<char>,
    configured: bool,
    soft: Option<u64>,
    hard: Option<u64>,
) -> RouteEntryView {
    entry_view(
        catalog,
        rates,
        provider,
        model,
        configured,
        soft,
        hard,
        blake3_hex(route_input(catalog, provider, model, soft, hard)),
    )
}

fn or_limit(a: Option<u64>, b: Option<u64>) -> (r: Option<u64>)
    ensures
        r == model_catalog::or(a, b),
{
    match a {
        Some(x) => Some(x),
        None => b,
    }
}

/// What the hash of a route is taken of.
pub fn route_hash_input(
    provider_kind: &str,
    model: &str,
    context_soft: Option<u64>,
    context_hard: Option<u64>,
) -> (r: String)
    ensures
        r@ == hash_input(provider_kind@, model@, context_soft, context_hard),
{
    let soft = text::decimal(context_soft.unwrap_or(0));
    let hard = text::decimal(context_hard.unwrap_or(0));
    provider_kind.to_owned().concat(":").concat(model).concat(":").concat(&soft).concat(
        ":",
    ).concat(&hard)
}

/// Builds a route whose hash in hexadecimal is `hex`.
pub fn entry_with_hash(
    catalog: &ModelCatalogConfig,
    rates: &ModelCatalogConfig,
    provider_kind: &str,
    model: &str,
    configured: bool,
    context_soft: Option<u64>,
    context_hard: Option<u64>,
    hex: &str,
) -> (r: RouteEntry)
    ensures
        r.deep_view() == entry_view(
            catalog,
            rates,
            provider_kind@,
            model@,
            configured,
            context_soft,
            context_hard,
            hex@,
        ),
{
    let card = pricing::for_model_in(rates, provider_kind, model);
    let settings = catalog.resolve_model(model);
    let (valid_effort_levels, default_effort) = effort_config(provider_kind, &settings);
    let (provider_label, provider_aliases, provider_quirks) = match catalog.provider(
        provider_kind,
    ) {
        Some(p) => (p.label.clone(), copy_list(&p.aliases), copy_list(&p.quirks)),
        None => {
            let none: Vec<String> = Vec::new();
            proof {
                assert(none.deep_view() =~= Seq::empty());
            }
            (None, none, Vec::new())
        },
    };
    proof {
        if catalog.provider_for(provider_kind@) is None {
            assert(provider_quirks.deep_view() =~= Seq::empty());
        }
    }
    let (input_rate, output_rate) = match card {
        Some(c) => (Some(c.input_per_mtok), Some(c.output_per_mtok)),
        None => (None, None),
    };
    let hash = if hex.unicode_len() >= 16 {
        hex.substring_char(0, 16).to_owned()
    } else {
        String::new()
    };
    proof {
        assert(hash@ =~= short_hash(hex@));
    }
    RouteEntry {
        provider_kind: provider_kind.to_owned(),
        model: model.to_owned(),
        configured,
        provider_label,
        provider_aliases,
        provider_quirks,
        label: settings.label,
        aliases: settings.aliases,
        quirks: settings.quirks,
        max_output_tokens: settings.max_output_tokens,
        favorites: route_favorites(catalog, provider_kind, model),
        context_soft_limit: or_limit(settings.context_soft_limit, context_soft),
        context_hard_limit: or_limit(settings.context_hard_limit, context_hard),
        valid_effort_levels,
        default_effort,
        pricing_input_per_mtok: input_rate,
        pricing_output_per_mtok: output_rate,
        hash,
    }
}

/// Builds a route. An unknown limit stays unknown, and the hash has sixteen hexadecimal digits.
pub fn build_entry(
    catalog: &ModelCatalogConfig,
    rates: &ModelCatalogConfig,
    provider_kind: &str,
    model: &str,
    configured: bool,
    context_soft: Option<u64>,
    context_hard: Option<u64>,
) -> (r: RouteEntry)
    ensures
        r.deep_view() == built(
            catalog,
            rates,
            provider_kind@,
            model@,
            configured,
            context_soft,
            context_hard,
        ),
        r.hash@.len() == 16,
        hex_digits(r.hash@),
{
    let settings = catalog.resolve_model(model);
    let input = route_hash_input(
        provider_kind,
        model,
        or_limit(settings.context_soft_limit, context_soft),
        or_limit(settings.context_hard_limit, context_hard),
    );
    let hex = hash_hex(&input);
    entry_with_hash(
        catalog,
        rates,
        provider_kind,
        model,
        configured,
        context_soft,
        context_hard,
        &hex,
    )
}

/// A route that a catalog starts with.
#[derive(Debug, Clone, PartialEq, Eq)]
pub struct Seed {
    pub provider: String,
    pub model: String,
    /// The soft limit of the context, unless the model states its own.
    pub soft: u64,
    /// The hard limit of the context, unless the model states its own.
    pub hard: u64,
}

/// The contents of a [`Seed`].
pub struct SeedView {
    pub provider: Seq<char>,
    pub model: Seq<char>,
    pub soft: u64,
    pub hard: u64,
}

impl DeepView for Seed {
    type V = SeedView;

    open spec fn deep_view(&self) -> SeedView {
        SeedView { provider: self.provider@, model: self.model@, soft: self.soft, hard: self.hard }
    }
}

/// A seed with its contents.
pub open spec fn seed_view(
    provider: Seq<char>,
    model: Seq<char>,
    soft: u64,
    hard: u64,
) -> SeedView {
    SeedView { provider, model, soft, hard }
}

/// The seeds of the Anthropic lane for the model family `family`.
pub open spec fn anthropic_seeds(family: Seq<char>) -> Seq<SeedView> {
    seq![
        seed_view("anthropic_api"@, family + "-opus-4-8"@, 200_000, 1_000_000),
        seed_view("anthropic_api"@, family + "-opus-4-7"@, 200_000, 1_000_000),
        seed_view("anthropic_api"@, family + "-sonnet-4-6"@, 200_000, 200_000),
        seed_view("anthropic_api"@, family + "-haiku-4-5"@, 200_000, 200_000),
    ]
}

/// The seeds of the OpenRouter lane for the model family `family`.
pub open spec fn openrouter_family_seeds(family: Seq<char>) -> Seq<SeedView> {
    seq![
        seed_view("openrouter"@, "anthropic/"@ + family + "-opus-4.7"@, 200_000, 1_000_000),
        seed_view("openrouter"@, "anthropic/"@ + family + "-sonnet-4.6"@, 200_000, 200_000),
        seed_view("openrouter"@, "anthropic/"@ + family + "-haiku-4-5"@, 200_000, 200_000),
    ]
}

/// The seed of the Codex lane.
pub open spec fn codex_seeds() -> Seq<SeedView> {
    seq![seed_view("openai_codex"@, "gpt-5.5"@, 1_000_000, 1_000_000)]
}

/// The seeds of other vendors: of the OpenRouter lane and of the vLLM lane.
pub open spec fn other_seeds() -> Seq<SeedView> {
    seq![
        seed_view("openrouter"@, "x-ai/grok-3"@, 131_072, 131_072),
        seed_view("openrouter"@, "google/gemini-2.5-pro"@, 1_000_000, 1_000_000),
        seed_view("vllm"@, "Qwen/Qwen3-Coder-30B-A3B-Instruct-FP8"@, 32_768, 32_768),
    ]
}

/// The routes that a catalog starts with. `family` is the name that the models of Anthropic begin
/// with; without it there are no seeds for them.
pub open spec fn default_seeds_view(family: Option<Seq<char>>) -> Seq<SeedView> {
    match family {
        Some(f) => anthropic_seeds(f) + codex_seeds() + openrouter_family_seeds(f) + other_seeds(),
        None => codex_seeds() + other_seeds(),
    }
}

fn push_seed(seeds: &mut Vec<Seed>, provider: &str, model: String, soft: u64, hard: u64)
    ensures
        final(seeds).deep_view() == old(seeds).deep_view().push(
            seed_view(provider@, model@, soft, hard),
        ),
{
    let ghost before = seeds.deep_view();
    seeds.push(Seed { provider: provider.to_owned(), model, soft, hard });
    proof {
        assert(seeds.deep_view() =~= before.push(seed_view(provider@, model@, soft, hard)));
    }
}

fn family_model(prefix: &str, family: &str, name: &str) -> (r: String)
    ensures
        r@ == prefix@ + family@ + name@,
{
    prefix.to_owned().concat(family).concat(name)
}

/// The routes that a catalog starts with, by lane: Anthropic, Codex, OpenRouter, vLLM. `family` is
/// the name that the models of Anthropic begin with; without it there are no seeds for them.
pub fn default_seeds(family: Option<&str>) -> (r: Vec<Seed>)
    ensures
        r.deep_view() == default_seeds_view(
            match family {
                Some(f) => Some(f@),
                None => None,
            },
        ),
{
    let mut s: Vec<Seed> = Vec::new();
    proof {
        assert(s.deep_view() =~= Seq::empty());
    }
    if let Some(f) = family {
        proof {
            reveal_strlit("");
            assert(""@ + f@ =~= f@);
        }
        push_seed(&mut s, "anthropic_api", family_model("", f, "-opus-4-8"), 200_000, 1_000_000);
        push_seed(&mut s, "anthropic_api", family_model("", f, "-opus-4-7"), 200_000, 1_000_000);
        push_seed(&mut s, "anthropic_api", family_model("", f, "-sonnet-4-6"), 200_000, 200_000);
        push_seed(&mut s, "anthropic_api", family_model("", f, "-haiku-4-5"), 200_000, 200_000);
        proof {
            assert(s.deep_view() =~= anthropic_seeds(f@));
        }
    }
    push_seed(&mut s, "openai_codex", "gpt-5.5".to_owned(), 1_000_000, 1_000_000);
    let ghost sofar = s.deep_view();
    if let Some(f) = family {
        let vendor = "anthropic/";
        push_seed(&mut s, "openrouter", family_model(vendor, f, "-opus-4.7"), 200_000, 1_000_000);
        push_seed(&mut s, "openrouter", family_model(vendor, f, "-sonnet-4.6"), 200_000, 200_000);
        push_seed(&mut s, "openrouter", family_model(vendor, f, "-haiku-4-5"), 200_000, 200_000);
        proof {
            assert(s.deep_view() =~= sofar + openrouter_family_seeds(f@));
        }
    }
    let ghost sofar = s.deep_view();
    push_seed(&mut s, "openrouter", "x-ai/grok-3".to_owned(), 131_072, 131_072);
    push_seed(&mut s, "openrouter", "google/gemini-2.5-pro".to_owned(), 1_000_000, 1_000_000);
    let qwen = "Qwen/Qwen3-Coder-30B-A3B-Instruct-FP8";
    push_seed(&mut s, "vllm", qwen.to_owned(), 32_768, 32_768);
    proof {
        assert(s.deep_view() =~= sofar + other_seeds());
        match family {
            Some(f) => {
                assert(s.deep_view() =~= default_seeds_view(Some(f@)));
            },
            None => {
                assert(s.deep_view() =~= default_seeds_view(None));
            },
        }
    }
    s
}

/// The route of a seed.
pub open spec fn seed_route(
    catalog: &ModelCatalogConfig,
    rates: &ModelCatalogConfig,
    availability: ProviderAvailability,
    s: SeedView,
) -> RouteEntryView {
    built(
        catalog,
        rates,
        s.provider,
        s.model,
        availability.available(s.provider),
        Some(s.soft),
        Some(s.hard),
    )
}

/// The routes of the seeds, and after them the one that needs no provider.
pub open spec fn seeded(
    catalog: &ModelCatalogConfig,
    rates: &ModelCatalogConfig,
    availability: ProviderAvailability,
    seeds: Seq<SeedView>,
) -> Seq<RouteEntryView> {
    seeds.map_values(|s: SeedView| seed_route(catalog, rates, availability, s)).push(
        built(catalog, rates, "faux"@, "faux"@, true, Some(128_000u64), Some(128_000u64)),
    )
}

/// Whether `e` is the route of a provider and a model.
pub open spec fn is_route(provider: Seq<char>, model: Seq<char>) -> spec_fn(RouteEntryView) -> bool {
    |e: RouteEntryView| e.provider_kind == provider && e.model == model
}

/// `routes` with the route `e` in it. A route that is there already is only noted as configured if
/// `e` is.
pub open spec fn upserted(routes: Seq<RouteEntryView>, e: RouteEntryView) -> Seq<RouteEntryView> {
    match seqs::find(routes, is_route(e.provider_kind, e.model)) {
        Some(i) => routes.update(
            i,
            RouteEntryView { configured: routes[i].configured || e.configured, ..routes[i] },
        ),
        None => routes.push(e),
    }
}

/// `routes` with each of `new` in it, in turn.
pub open spec fn upserted_all(routes: Seq<RouteEntryView>, new: Seq<RouteEntryView>) -> Seq<
    RouteEntryView,
>
    decreases new.len(),
{
    if new.len() == 0 {
        routes
    } else {
        upserted(upserted_all(routes, new.drop_last()), new.last())
    }
}

/// The routes of discovered models, whose limits are not known.
pub open spec fn discovered(
    catalog: &ModelCatalogConfig,
    rates: &ModelCatalogConfig,
    provider: Seq<char>,
    models: Seq<Seq<char>>,
) -> Seq<RouteEntryView> {
    models.map_values(|m: Seq<char>| built(catalog, rates, provider, m, true, None, None))
}

/// The route of a name that stands for a model in the catalog; none if it stands for nothing.
pub open spec fn named_route(
    catalog: &ModelCatalogConfig,
    rates: &ModelCatalogConfig,
    availability: ProviderAvailability,
    provider: Seq<char>,
    name: Seq<char>,
) -> Seq<RouteEntryView> {
    let model = model_catalog::chase(
        model_catalog::entries(catalog.models@),
        name,
        Set::empty(),
    );
    if text::trim_view(model).len() == 0 {
        Seq::empty()
    } else {
        seq![
            built(
                catalog,
                rates,
                provider,
                model,
                availability.available(provider),
                None,
                None,
            ),
        ]
    }
}

/// The routes of favorites.
pub open spec fn favorite_routes(
    catalog: &ModelCatalogConfig,
    rates: &ModelCatalogConfig,
    availability: ProviderAvailability,
    favorites: Seq<(Seq<char>, FavoriteConfig)>,
) -> Seq<RouteEntryView>
    decreases favorites.len(),
{
    if favorites.len() == 0 {
        Seq::empty()
    } else {
        favorite_routes(catalog, rates, availability, favorites.drop_last()) + named_route(
            catalog,
            rates,
            availability,
            kind_of(catalog, favorites.last().1.provider@),
            favorites.last().1.model@,
        )
    }
}

/// The routes of a provider's models.
pub open spec fn model_routes(
    catalog: &ModelCatalogConfig,
    rates: &ModelCatalogConfig,
    availability: ProviderAvailability,
    provider: Seq<char>,
    models: Seq<(Seq<char>, ModelCatalogEntry)>,
) -> Seq<RouteEntryView>
    decreases models.len(),
{
    if models.len() == 0 {
        Seq::empty()
    } else {
        model_routes(catalog, rates, availability, provider, models.drop_last()) + named_route(
            catalog,
            rates,
            availability,
            provider,
            model_catalog::or(models.last().1.model.deep_view(), Some(models.last().0))->0,
        )
    }
}

/// A file of generated models: its name and the models in it.
#[derive(Debug)]
pub struct GeneratedLayer {
    pub file_name: String,
    pub models: StringMap<ModelCatalogEntry>,
}

/// The routes of a file of generated models: those of the provider that the file is named for.
pub open spec fn layer_routes(
    catalog: &ModelCatalogConfig,
    rates: &ModelCatalogConfig,
    availability: ProviderAvailability,
    layer: GeneratedLayer,
) -> Seq<RouteEntryView> {
    match generated_for(layer.file_name@) {
        Some(provider) => model_routes(
            catalog,
            rates,
            availability,
            kind_of(catalog, provider),
            layer.models.pairs(),
        ),
        None => Seq::empty(),
    }
}

/// The routes of files of generated models, in order.
pub open spec fn layers_routes(
    catalog: &ModelCatalogConfig,
    rates: &ModelCatalogConfig,
    availability: ProviderAvailability,
    layers: Seq<GeneratedLayer>,
) -> Seq<RouteEntryView>
    decreases layers.len(),
{
    if layers.len() == 0 {
        Seq::empty()
    } else {
        layers_routes(catalog, rates, availability, layers.drop_last()) + layer_routes(
            catalog,
            rates,
            availability,
            layers.last(),
        )
    }
}

/// The routes that can be selected.
#[derive(Debug, Clone)]
pub struct RouteCatalog {
    entries: Vec<RouteEntry>,
}

impl View for RouteCatalog {
    type V = Seq<RouteEntryView>;

    closed spec fn view(&self) -> Seq<RouteEntryView> {
        self.entries.deep_view()
    }
}

impl RouteCatalog {
    /// The routes of the seeds, in order, and after them the one that needs no provider.
    pub fn from_catalog_with_availability(
        catalog: &ModelCatalogConfig,
        rates: &ModelCatalogConfig,
        availability: ProviderAvailability,
        seeds: &Vec<Seed>,
    ) -> (r: Self)
        ensures
            r@ == seeded(catalog, rates, availability, seeds.deep_view()),
    {
        let ghost all = seeds.deep_view();
        let mut entries: Vec<RouteEntry> = Vec::new();
        let mut i: usize = 0;
        while i < seeds.len()
            invariant
                i <= seeds@.len(),
                entries@.len() == i,
                all == seeds.deep_view(),
                forall|j: int|
                    0 <= j < i ==> (#[trigger] entries@[j]).deep_view() == seed_route(
                        catalog,
                        rates,
                        availability,
                        all[j],
                    ),
            decreases seeds@.len() - i,
        {
            let s = &seeds[i];
            entries.push(
                build_entry(
                    catalog,
                    rates,
                    &s.provider,
                    &s.model,
                    availability.configured(&s.provider),
                    Some(s.soft),
                    Some(s.hard),
                ),
            );
            proof {
                assert(all[i as int] == s.deep_view());
            }
            i += 1;
        }
        entries.push(
            build_entry(catalog, rates, "faux", "faux", true, Some(128_000), Some(128_000)),
        );
        let r = RouteCatalog { entries };
        proof {
            assert(r@ =~= seeded(catalog, rates, availability, all));
        }
        r
    }

    /// Adds the models that a local Ollama server offers.
    pub fn with_ollama_models_using(
        self,
        catalog: &ModelCatalogConfig,
        rates: &ModelCatalogConfig,
        models: &Vec<String>,
    ) -> (r: Self)
        ensures
            r@ == upserted_all(
                self@,
                discovered(catalog, rates, "ollama"@, models.deep_view()),
            ),
    {
        self.with_discovered(catalog, rates, "ollama", models)
    }

    /// Adds the models that a vLLM server offers.
    pub fn with_vllm_models(
        self,
        catalog: &ModelCatalogConfig,
        rates: &ModelCatalogConfig,
        models: &Vec<String>,
    ) -> (r: Self)
        ensures
            r@ == upserted_all(self@, discovered(catalog, rates, "vllm"@, models.deep_view())),
    {
        self.with_discovered(catalog, rates, "vllm", models)
    }

    fn with_discovered(
        self,
        catalog: &ModelCatalogConfig,
        rates: &ModelCatalogConfig,
        provider_kind: &str,
        models: &Vec<String>,
    ) -> (r: Self)
        ensures
            r@ == upserted_all(
                self@,
                discovered(catalog, rates, provider_kind@, models.deep_view()),
            ),
    {
        let mut r = self;
        let ghost new = discovered(catalog, rates, provider_kind@, models.deep_view());
        let mut i: usize = 0;
        proof {
            assert(new.take(0) =~= Seq::empty());
        }
        while i < models.len()
            invariant
                i <= models@.len(),
                new == discovered(catalog, rates, provider_kind@, models.deep_view()),
                new.len() == models@.len(),
                r@ == upserted_all(self@, new.take(i as int)),
            decreases models@.len() - i,
        {
            proof {
                seqs::lemma_take_step(new, i as int);
            }
            r.upsert_entry(
                build_entry(catalog, rates, provider_kind, &models[i], true, None, None),
            );
            i += 1;
        }
        proof {
            assert(new.take(new.len() as int) =~= new);
        }
        r
    }

    /// Adds the routes that favorites name.
    pub fn with_favorite_routes(
        self,
        catalog: &ModelCatalogConfig,
        rates: &ModelCatalogConfig,
        availability: ProviderAvailability,
    ) -> (r: Self)
        ensures
            r@ == upserted_all(
                self@,
                favorite_routes(catalog, rates, availability, catalog.favorites.pairs()),
            ),
    {
        let mut r = self;
        let ghost p = catalog.favorites.pairs();
        let n: usize = catalog.favorites.len();
        let mut i: usize = 0;
        proof {
            assert(p.take(0) =~= Seq::empty());
        }
        while i < n
            invariant
                i <= n,
                n == p.len(),
                p == catalog.favorites.pairs(),
                r@ == upserted_all(
                    self@,
                    favorite_routes(catalog, rates, availability, p.take(i as int)),
                ),
            decreases n - i,
        {
            let fav = catalog.favorites.value_at(i);
            let provider_kind = canonical_provider_kind(catalog, &fav.provider);
            let ghost before = favorite_routes(catalog, rates, availability, p.take(i as int));
            proof {
                seqs::lemma_take_step(p, i as int);
            }
            r.add_named(catalog, rates, availability, &provider_kind, &fav.model);
            proof {
                lemma_upsert_more(
                    self@,
                    before,
                    named_route(catalog, rates, availability, provider_kind@, fav.model@),
                );
            }
            i += 1;
        }
        proof {
            assert(p.take(n as int) =~= p);
        }
        r
    }

    /// With the routes of files of generated models, in order.
    pub fn with_generated_layers_for_config(
        self,
        catalog: &ModelCatalogConfig,
        rates: &ModelCatalogConfig,
        layers: &Vec<GeneratedLayer>,
        availability: ProviderAvailability,
    ) -> (r: Self)
        ensures
            r@ == upserted_all(
                self@,
                layers_routes(catalog, rates, availability, layers@),
            ),
    {
        let mut r = self;
        let mut i: usize = 0;
        proof {
            assert(layers@.take(0) =~= Seq::empty());
        }
        while i < layers.len()
            invariant
                i <= layers@.len(),
                r@ == upserted_all(
                    self@,
                    layers_routes(catalog, rates, availability, layers@.take(i as int)),
                ),
            decreases layers@.len() - i,
        {
            let layer = &layers[i];
            let ghost before = layers_routes(
                catalog,
                rates,
                availability,
                layers@.take(i as int),
            );
            proof {
                seqs::lemma_take_step(layers@, i as int);
                lemma_upsert_more(
                    self@,
                    before,
                    layer_routes(catalog, rates, availability, *layer),
                );
            }
            if let Some(provider) = generated_provider(&layer.file_name) {
                let provider_kind = canonical_provider_kind(catalog, &provider);
                r.add_model_entries_for_provider(
                    catalog,
                    rates,
                    &provider_kind,
                    &layer.models,
                    availability,
                );
            }
            i += 1;
        }
        proof {
            assert(layers@.take(layers@.len() as int) =~= layers@);
        }
        r
    }

    /// Adds the routes of a provider's models.
    pub fn add_model_entries_for_provider(
        &mut self,
        catalog: &ModelCatalogConfig,
        rates: &ModelCatalogConfig,
        provider_kind: &str,
        models: &StringMap<ModelCatalogEntry>,
        availability: ProviderAvailability,
    )
        ensures
            final(self)@ == upserted_all(
                old(self)@,
                model_routes(catalog, rates, availability, provider_kind@, models.pairs()),
            ),
    {
        let ghost start = self@;
        let ghost p = models.pairs();
        let n: usize = models.len();
        let mut i: usize = 0;
        proof {
            assert(p.take(0) =~= Seq::empty());
        }
        while i < n
            invariant
                i <= n,
                n == p.len(),
                p == models.pairs(),
                self@ == upserted_all(
                    start,
                    model_routes(catalog, rates, availability, provider_kind@, p.take(i as int)),
                ),
            decreases n - i,
        {
            let entry = models.value_at(i);
            let raw: &str = match &entry.model {
                Some(m) => m.as_str(),
                None => models.key_at(i).as_str(),
            };
            let ghost before = model_routes(
                catalog,
                rates,
                availability,
                provider_kind@,
                p.take(i as int),
            );
            proof {
                seqs::lemma_take_step(p, i as int);
            }
            self.add_named(catalog, rates, availability, provider_kind, raw);
            proof {
                lemma_upsert_more(
                    start,
                    before,
                    named_route(catalog, rates, availability, provider_kind@, raw@),
                );
            }
            i += 1;
        }
        proof {
            assert(p.take(n as int) =~= p);
        }
    }

    fn add_named(
        &mut self,
        catalog: &ModelCatalogConfig,
        rates: &ModelCatalogConfig,
        availability: ProviderAvailability,
        provider_kind: &str,
        name: &str,
    )
        ensures
            final(self)@ == upserted_all(
                old(self)@,
                named_route(catalog, rates, availability, provider_kind@, name@),
            ),
    {
        let ghost start = self@;
        let ghost new = named_route(catalog, rates, availability, provider_kind@, name@);
        let model = catalog.resolve_model_name(name);
        if text::trim(&model).unicode_len() > 0 {
            self.upsert_entry(
                build_entry(
                    catalog,
                    rates,
                    provider_kind,
                    &model,
                    availability.configured(provider_kind),
                    None,
                    None,
                ),
            );
            proof {
                assert(new.drop_last() =~= Seq::empty());
                assert(upserted_all(start, new.drop_last()) == start);
            }
        }
    }

    /// Adds a route, unless it is there. A route that is there keeps what is known of it, and is
    /// configured from then on if the new one is.
    pub fn upsert_entry(&mut self, entry: RouteEntry)
        ensures
            final(self)@ == upserted(old(self)@, entry.deep_view()),
    {
        let ghost start = self@;
        let ghost p = is_route(entry.provider_kind@, entry.model@);
        let mut i: usize = 0;
        while i < self.entries.len()
            invariant
                i <= self.entries@.len(),
                start == old(self)@,
                self@ == start,
                start.len() == self.entries@.len(),
                p == is_route(entry.provider_kind@, entry.model@),
                forall|j: int| 0 <= j < i ==> !p(#[trigger] start[j]),
            decreases self.entries@.len() - i,
        {
            proof {
                assert(start[i as int] == self.entries@[i as int].deep_view());
            }
            if text::same(&self.entries[i].provider_kind, &entry.provider_kind) && text::same(
                &self.entries[i].model,
                &entry.model,
            ) {
                proof {
                    seqs::lemma_found(start, p, i as int);
                }
                let configured = self.entries[i].configured || entry.configured;
                self.entries[i].configured = configured;
                proof {
                    assert(self@ =~= upserted(start, entry.deep_view()));
                }
                return;
            }
            i += 1;
        }
        proof {
            seqs::lemma_not_found(start, p);
        }
        self.entries.push(entry);
        proof {
            assert(self@ =~= start.push(entry.deep_view()));
        }
    }

    /// The routes, in order.
    pub fn entries(&self) -> (r: &[RouteEntry])
        ensures
            r.deep_view() == self@,
    {
        let r = self.entries.as_slice();
        proof {
            assert(r.deep_view() =~= self@);
        }
        r
    }

    /// The first route with a hash.
    pub fn find_by_hash(&self, hash: &str) -> (r: Option<&RouteEntry>)
        ensures
            match seqs::find(self@, |e: RouteEntryView| e.hash == hash@) {
                Some(i) => r is Some && r->0.deep_view() == self@[i],
                None => r is None,
            },
    {
        let ghost p = |e: RouteEntryView| e.hash == hash@;
        let mut i: usize = 0;
        while i < self.entries.len()
            invariant
                i <= self.entries@.len(),
                p == (|e: RouteEntryView| e.hash == hash@),
                forall|j: int| 0 <= j < i ==> !p(#[trigger] self@[j]),
            decreases self.entries@.len() - i,
        {
            proof {
                assert(self@[i as int] == self.entries@[i as int].deep_view());
            }
            if text::same(&self.entries[i].hash, hash) {
                proof {
                    seqs::lemma_found(self@, p, i as int);
                }
                return Some(&self.entries[i]);
            }
            i += 1;
        }
        proof {
            seqs::lemma_not_found(self@, p);
        }
        None
    }

    /// The route of a provider and a model.
    pub fn find(&self, provider_kind: &str, model: &str) -> (r: Option<&RouteEntry>)
        ensures
            match seqs::find(self@, is_route(provider_kind@, model@)) {
                Some(i) => r is Some && r->0.deep_view() == self@[i],
                None => r is None,
            },
    {
        let ghost p = is_route(provider_kind@, model@);
        let mut i: usize = 0;
        while i < self.entries.len()
            invariant
                i <= self.entries@.len(),
                p == is_route(provider_kind@, model@),
                forall|j: int| 0 <= j < i ==> !p(#[trigger] self@[j]),
            decreases self.entries@.len() - i,
        {
            proof {
                assert(self@[i as int] == self.entries@[i as int].deep_view());
            }
            if text::same(&self.entries[i].provider_kind, provider_kind) && text::same(
                &self.entries[i].model,
                model,
            ) {
                proof {
                    seqs::lemma_found(self@, p, i as int);
                }
                return Some(&self.entries[i]);
            }
            i += 1;
        }
        proof {
            seqs::lemma_not_found(self@, p);
        }
        None
    }

    /// The routes that are configured, in order.
    pub fn configured_entries(&self) -> (r: Vec<&RouteEntry>)
        ensures
            r.deep_view() == self@.filter(|e: RouteEntryView| e.configured),
    {
        let ghost p = |e: RouteEntryView| e.configured;
        let mut r: Vec<&RouteEntry> = Vec::new();
        let mut i: usize = 0;
        proof {
            seqs::lemma_filter_start(self@, p);
            assert(r.deep_view() =~= Seq::empty());
        }
        while i < self.entries.len()
            invariant
                i <= self.entries@.len(),
                p == (|e: RouteEntryView| e.configured),
                r.deep_view() == self@.take(i as int).filter(p),
            decreases self.entries@.len() - i,
        {
            proof {
                seqs::lemma_filter_step(self@, i as int, p);
                assert(self@[i as int] == self.entries@[i as int].deep_view());
            }
            let ghost before = r.deep_view();
            if self.entries[i].configured {
                r.push(&self.entries[i]);
                proof {
                    assert(r.deep_view() =~= before.push(self@[i as int]));
                }
            }
            i += 1;
        }
        proof {
            assert(self@.take(self@.len() as int) =~= self@);
        }
        r
    }
}

proof fn lemma_upsert_more(
    routes: Seq<RouteEntryView>,
    a: Seq<RouteEntryView>,
    b: Seq<RouteEntryView>,
)
    ensures
        upserted_all(routes, a + b) == upserted_all(upserted_all(routes, a), b),
    decreases b.len(),
{
    if b.len() == 0 {
        assert(a + b =~= a);
    } else {
        assert((a + b).drop_last() =~= a + b.drop_last());
        lemma_upsert_more(routes, a, b.drop_last());
    }
}

/// Whether no two routes have the same provider and model.
pub open spec fn distinct(routes: Seq<RouteEntryView>) -> bool {
    forall|i: int, j: int|
        0 <= i < j < routes.len() ==> !((#[trigger] routes[i]).provider_kind == (
        #[trigger] routes[j]).provider_kind && routes[i].model == routes[j].model)
}

/// A route is in the catalog at most once: adding routes keeps it so.
pub proof fn law_routes_stay_distinct(routes: Seq<RouteEntryView>, new: Seq<RouteEntryView>)
    requires
        distinct(routes),
    ensures
        distinct(upserted_all(routes, new)),
    decreases new.len(),
{
    if new.len() > 0 {
        law_routes_stay_distinct(routes, new.drop_last());
        let before = upserted_all(routes, new.drop_last());
        let e = new.last();
        seqs::lemma_find(before, is_route(e.provider_kind, e.model));
    }
}

/// Adding routes removes none: every route stays where it is, with all that is known of it, and a
/// configured one stays configured.
pub proof fn law_routes_are_only_added_to(routes: Seq<RouteEntryView>, new: Seq<RouteEntryView>)
    ensures
        routes.len() <= upserted_all(routes, new).len(),
        forall|i: int|
            0 <= i < routes.len() ==> {
                let after = #[trigger] upserted_all(routes, new)[i];
                &&& after == RouteEntryView { configured: after.configured, ..routes[i] }
                &&& routes[i].configured ==> after.configured
            },
    decreases new.len(),
{
    if new.len() > 0 {
        law_routes_are_only_added_to(routes, new.drop_last());
        let before = upserted_all(routes, new.drop_last());
        let e = new.last();
        seqs::lemma_find(before, is_route(e.provider_kind, e.model));
        assert forall|i: int| 0 <= i < routes.len() implies {
            let after = #[trigger] upserted_all(routes, new)[i];
            &&& after == RouteEntryView { configured: after.configured, ..routes[i] }
            &&& routes[i].configured ==> after.configured
        } by {
            let b = before[i];
            assert(b == RouteEntryView { configured: b.configured, ..routes[i] });
        }
    }
}

/// Seeds that name different routes, none of them the one that needs no provider, give a catalog
/// in which every route is once.
pub proof fn law_distinct_seeds_give_distinct_routes(
    catalog: &ModelCatalogConfig,
    rates: &ModelCatalogConfig,
    availability: ProviderAvailability,
    seeds: Seq<SeedView>,
)
    requires
        forall|i: int, j: int|
            0 <= i < j < seeds.len() ==> !((#[trigger] seeds[i]).provider == (
            #[trigger] seeds[j]).provider && seeds[i].model == seeds[j].model),
        forall|i: int|
            0 <= i < seeds.len() ==> !((#[trigger] seeds[i]).provider == "faux"@ && seeds[i].model
                == "faux"@),
    ensures
        distinct(seeded(catalog, rates, availability, seeds)),
{
    let s = seeded(catalog, rates, availability, seeds);
    assert forall|i: int, j: int| 0 <= i < j < s.len() implies !((#[trigger] s[i]).provider_kind
        == (#[trigger] s[j]).provider_kind && s[i].model == s[j].model) by {
        assert(s[i].provider_kind == seeds[i].provider && s[i].model == seeds[i].model);
        if j < seeds.len() {
            assert(s[j].provider_kind == seeds[j].provider && s[j].model == seeds[j].model);
        }
    }
}

/// A default effort that the model does not state itself is one of the route's levels.
pub proof fn law_default_effort_is_a_level(provider: Seq<char>, s: SettingsView)
    requires
        s.default_effort is None,
        default_of(provider, s) is Some,
    ensures
        levels_of(provider, s).contains(default_of(provider, s)->0),
{
    let levels = levels_of(provider, s);
    if levels.len() > 0 {
        assert(levels.contains(levels[0]));
    }
}

/// The hash of a route depends on provider, model and the resulting limits alone, whatever else the
/// catalogs hold and whether or not the route is configured.
pub proof fn law_hash_tells_the_route(
    a: &ModelCatalogConfig,
    b: &ModelCatalogConfig,
    a_rates: &ModelCatalogConfig,
    b_rates: &ModelCatalogConfig,
    provider: Seq<char>,
    model: Seq<char>,
    a_configured: bool,
    b_configured: bool,
    a_limits: (Option<u64>, Option<u64>),
    b_limits: (Option<u64>, Option<u64>),
)
    requires
        ({
            let x = built(a, a_rates, provider, model, a_configured, a_limits.0, a_limits.1);
            let y = built(b, b_rates, provider, model, b_configured, b_limits.0, b_limits.1);
            x.context_soft_limit == y.context_soft_limit && x.context_hard_limit
                == y.context_hard_limit
        }),
    ensures
        built(a, a_rates, provider, model, a_configured, a_limits.0, a_limits.1).hash == built(
            b,
            b_rates,
            provider,
            model,
            b_configured,
            b_limits.0,
            b_limits.1,
        ).hash,
{
}

/// A limit that neither the model nor the source of a route states stays unknown.
pub proof fn law_unknown_limits_stay_unknown(
    catalog: &ModelCatalogConfig,
    rates: &ModelCatalogConfig,
    provider: Seq<char>,
    model: Seq<char>,
    configured: bool,
)
    requires
        catalog.resolved(model).context_soft_limit is None,
        catalog.resolved(model).context_hard_limit is None,
    ensures
        built(catalog, rates, provider, model, configured, None, None).context_soft_limit is None,
        built(catalog, rates, provider, model, configured, None, None).context_hard_limit is None,
{
}

/// The name under which generated models of a provider are kept gives the provider back.
pub proof fn law_generated_names_round_trip(provider: Seq<char>)
    ensures
        generated_for(model_catalog::generated_name(provider)) == Some(provider),
{
    let name = model_catalog::generated_name(provider);
    reveal_strlit("models.generated.");
    reveal_strlit(".toml");
    let rest = name.skip("models.generated."@.len() as int);
    assert(name.take("models.generated."@.len() as int) =~= "models.generated."@);
    assert(rest =~= provider + ".toml"@);
    assert(rest.skip(rest.len() - ".toml"@.len()) =~= ".toml"@);
    assert(rest.take(rest.len() - ".toml"@.len()) =~= provider);
}

/// The generated layers are the files that are for a provider.
pub proof fn law_layers_are_for_a_provider(file_name: Seq<char>)
    ensures
        model_catalog::is_layer(file_name) <==> generated_for(file_name) is Some,
{
    if model_catalog::is_layer(file_name) {
        let provider = choose|provider: Seq<char>|
            file_name == #[trigger] model_catalog::generated_name(provider);
        law_generated_names_round_trip(provider);
    }
    if let Some(provider) = generated_for(file_name) {
        assert(file_name =~= model_catalog::generated_name(provider));
    }
}

proof fn lemma_provider_names()
    ensures
        forall|i: int, j: int|
            0 <= i < j < 8 ==> #[trigger] provider_name(i) != #[trigger] provider_name(j),
{
    reveal_strlit("anthropic_api");
    reveal_strlit("anthropic_oauth");
    reveal_strlit("openai_codex");
    reveal_strlit("openai_api");
    reveal_strlit("openrouter");
    reveal_strlit("vllm");
    reveal_strlit("ollama");
    reveal_strlit("faux");
    assert("openai_api"@[4] == 'a' && "openrouter"@[4] == 'r');
    assert("vllm"@[0] == 'v' && "faux"@[0] == 'f');
    assert forall|i: int, j: int| 0 <= i < j < 8 implies #[trigger] provider_name(i)
        != #[trigger] provider_name(j) by {
        let a = provider_name(i);
        let b = provider_name(j);
        assert(a.len() != b.len() || a[4] != b[4] || a[0] != b[0]);
    }
}

/// The names of the known providers: four that share two keys, two with one of their own, and two
/// that need none.
pub open spec fn provider_name(i: int) -> Seq<char> {
    if i == 0 {
        "anthropic_api"@
    } else if i == 1 {
        "anthropic_oauth"@
    } else if i == 2 {
        "openai_codex"@
    } else if i == 3 {
        "openai_api"@
    } else if i == 4 {
        "openrouter"@
    } else if i == 5 {
        "vllm"@
    } else if i == 6 {
        "ollama"@
    } else {
        "faux"@
    }
}

/// A provider can be used exactly if what it needs is at hand: the lanes of a vendor need its key,
/// a server its address, local ones nothing, and an unknown provider can never be used.
pub proof fn law_providers_need_their_own_key(a: ProviderAvailability, provider: Seq<char>)
    ensures
        a.available(provider_name(0)) == a.anthropic_key,
        a.available(provider_name(1)) == a.anthropic_key,
        a.available(provider_name(2)) == a.openai_key,
        a.available(provider_name(3)) == a.openai_key,
        a.available(provider_name(4)) == a.openrouter_key,
        a.available(provider_name(5)) == a.vllm_configured,
        a.available(provider_name(6)),
        a.available(provider_name(7)),
        (forall|i: int| 0 <= i < 8 ==> provider != #[trigger] provider_name(i)) ==> !a.available(
            provider,
        ),
{
    lemma_provider_names();
    assert(forall|i: int| 0 <= i < 8 ==> #[trigger] provider_name(i) == provider_name(i));
    if forall|i: int| 0 <= i < 8 ==> provider != #[trigger] provider_name(i) {
        assert(provider != provider_name(0) && provider != provider_name(1) && provider
            != provider_name(2) && provider != provider_name(3) && provider != provider_name(4)
            && provider != provider_name(5) && provider != provider_name(6) && provider
            != provider_name(7));
    }
    assert(provider_name(0) != provider_name(4) && provider_name(1) != provider_name(4)
        && provider_name(2) != provider_name(4) && provider_name(3) != provider_name(4));
    assert(provider_name(0) != provider_name(2) && provider_name(1) != provider_name(2)
        && provider_name(0) != provider_name(3) && provider_name(1) != provider_name(3));
    assert(provider_name(0) != provider_name(5) && provider_name(1) != provider_name(5)
        && provider_name(2) != provider_name(5) && provider_name(3) != provider_name(5)
        && provider_name(4) != provider_name(5));
    assert(provider_name(0) != provider_name(6) && provider_name(1) != provider_name(6)
        && provider_name(2) != provider_name(6) && provider_name(3) != provider_name(6)
        && provider_name(4) != provider_name(6) && provider_name(5) != provider_name(6));
    assert(provider_name(0) != provider_name(7) && provider_name(1) != provider_name(7)
        && provider_name(2) != provider_name(7) && provider_name(3) != provider_name(7)
        && provider_name(4) != provider_name(7) && provider_name(5) != provider_name(7));
}

/// The two lanes of a vendor have the same levels and the same preference; what a provider prefers
/// is among its own levels, and a provider without levels prefers nothing.
pub proof fn law_lanes_of_a_vendor_share_their_efforts(provider: Seq<char>)
    ensures
        fallback_levels("anthropic_api"@) == fallback_levels("anthropic_oauth"@),
        fallback_levels("openai_api"@) == fallback_levels("openai_codex"@),
        preferred_effort("anthropic_api"@) == preferred_effort("anthropic_oauth"@),
        preferred_effort("openai_api"@) == preferred_effort("openai_codex"@),
        fallback_levels("anthropic_api"@) == fallback_levels("openai_api"@).push("max"@),
        fallback_levels("openai_api"@) == seq!["low"@, "medium"@, "high"@, "xhigh"@],
        fallback_levels("ollama"@) == seq!["off"@, "on"@],
        preferred_effort("anthropic_api"@) == Some("medium"@),
        preferred_effort("openai_api"@) == Some("medium"@),
        preferred_effort("ollama"@) == Some("on"@),
        preferred_effort(provider) is Some <==> fallback_levels(provider).len() > 0,
        preferred_effort(provider) is Some ==> fallback_levels(provider).contains(
            preferred_effort(provider)->0,
        ),
{
    lemma_provider_names();
    assert(provider_name(0) != provider_name(2) && provider_name(1) != provider_name(2)
        && provider_name(0) != provider_name(3) && provider_name(1) != provider_name(3));
    assert(provider_name(0) != provider_name(6) && provider_name(1) != provider_name(6)
        && provider_name(2) != provider_name(6) && provider_name(3) != provider_name(6));
    assert(fallback_levels("anthropic_api"@) =~= fallback_levels("openai_api"@).push("max"@));
    assert(fallback_levels("anthropic_api"@)[1] == "medium"@);
    assert(fallback_levels("openai_api"@)[1] == "medium"@);
    assert(fallback_levels("ollama"@)[1] == "on"@);
    let levels = fallback_levels(provider);
    if preferred_effort(provider) is Some {
        assert(levels[1] == preferred_effort(provider)->0);
    }
}

/// The levels and the default effort that a model states are those of the route; else the levels
/// are the provider's, and the default is what the provider prefers if that is a level of the
/// route, and else the first level.
pub proof fn law_efforts_of_the_model_prevail(provider: Seq<char>, s: SettingsView)
    ensures
        model_catalog::prevails_list(
            levels_of(provider, s),
            s.effort_levels,
            fallback_levels(provider),
        ),
        s.default_effort is Some ==> default_of(provider, s) == s.default_effort,
        s.default_effort is None ==> {
            let levels = levels_of(provider, s);
            let p = preferred_effort(provider);
            &&& p is None ==> default_of(provider, s) is None
            &&& levels.len() == 0 ==> default_of(provider, s) is None
            &&& p is Some && levels.contains(p->0) ==> default_of(provider, s) == p
            &&& p is Some && !levels.contains(p->0) && levels.len() > 0 ==> default_of(provider, s)
                == Some(levels[0])
        },
        some_levels(levels_of(provider, s)) is Some <==> levels_of(provider, s).len() > 0,
        some_levels(levels_of(provider, s)) is Some ==> some_levels(levels_of(provider, s))->0
            == levels_of(provider, s),
{
    let levels = levels_of(provider, s);
    if preferred_effort(provider) is Some && levels.contains(preferred_effort(provider)->0) {
        let i = choose|i: int|
            0 <= i < levels.len() && levels[i] == preferred_effort(provider)->0;
    }
}

/// A provider is of the kind that its entry states, and of its own name where none is stated.
pub proof fn law_kinds_are_those_of_entries(catalog: &ModelCatalogConfig, provider: Seq<char>)
    ensures
        ({
            let p = catalog.provider_for(provider);
            &&& p is Some && p->0.kind is Some ==> kind_of(catalog, provider) == p->0.kind->0@
            &&& p is None || p->0.kind is None ==> kind_of(catalog, provider) == provider
        }),
{
}

/// Whether the catalog has a favorite of a name for a provider and a model.
pub open spec fn has_favorite(
    catalog: &ModelCatalogConfig,
    provider: Seq<char>,
    model: Seq<char>,
    name: Seq<char>,
) -> bool {
    exists|j: int|
        0 <= j < catalog.favorites.pairs().len() && (#[trigger] catalog.favorites.pairs()[j]).0
            == name && catalog.is_favorite_for(catalog.favorites.pairs()[j].1, provider, model)
}

/// A route shows a favorite exactly if the catalog has it for that provider and model, and shows it
/// with all that it states.
pub proof fn law_routes_show_their_favorites(
    catalog: &ModelCatalogConfig,
    provider: Seq<char>,
    model: Seq<char>,
    i: int,
)
    requires
        0 <= i < catalog.favorites.pairs().len(),
    ensures
        ({
            let (name, f) = catalog.favorites.pairs()[i];
            let shown = favorites_of(catalog, provider, model);
            let v = favorite_view(name, f);
            &&& catalog.is_favorite_for(f, provider, model) ==> shown.contains(v)
            &&& v.name == name
            &&& v.label == f.label.deep_view()
            &&& v.aliases == f.aliases.deep_view()
            &&& v.default_effort == f.default_effort.deep_view()
            &&& v.tools == f.tools.deep_view()
        }),
        forall|k: int|
            0 <= k < favorites_of(catalog, provider, model).len() ==> has_favorite(
                catalog,
                provider,
                model,
                (#[trigger] favorites_of(catalog, provider, model)[k]).name,
            ),
{
    let all = catalog.favorites.pairs();
    let p = |e: (Seq<char>, FavoriteConfig)| catalog.is_favorite_for(e.1, provider, model);
    let g = |e: (Seq<char>, FavoriteConfig)| favorite_view(e.0, e.1);
    let kept = all.filter(p);
    let shown = favorites_of(catalog, provider, model);
    seqs::lemma_filter_contains(all, p);
    if p(all[i]) {
        assert(all.contains(all[i]));
        assert(kept.contains(all[i]));
        let k = choose|k: int| 0 <= k < kept.len() && kept[k] == all[i];
        assert(shown[k] == g(kept[k]));
    }
    assert forall|k: int| 0 <= k < shown.len() implies has_favorite(
        catalog,
        provider,
        model,
        (#[trigger] shown[k]).name,
    ) by {
        assert(kept.contains(kept[k]));
        let j = choose|j: int| 0 <= j < all.len() && all[j] == kept[k];
        assert(p(all[j]));
        assert(shown[k] == g(kept[k]));
    }
}

/// What the hash of a route is taken of begins with provider and model and tells the limits: other
/// limits give another text. An unknown limit counts as zero.
pub proof fn law_hash_inputs_tell_the_limits(
    provider: Seq<char>,
    model: Seq<char>,
    a: (u64, u64),
    b: (u64, u64),
)
    ensures
        text::has_prefix(
            hash_input(provider, model, Some(a.0), Some(a.1)),
            provider + ":"@ + model + ":"@,
        ),
        text::has_suffix(
            hash_input(provider, model, Some(a.0), Some(a.1)),
            ":"@ + text::decimal_view(a.1 as nat),
        ),
        hash_input(provider, model, None, Some(a.1)) == hash_input(
            provider,
            model,
            Some(0),
            Some(a.1),
        ),
        hash_input(provider, model, Some(a.0), None) == hash_input(
            provider,
            model,
            Some(a.0),
            Some(0),
        ),
        hash_input(provider, model, Some(a.0), Some(a.1)) == hash_input(
            provider,
            model,
            Some(b.0),
            Some(b.1),
        ) ==> a == b,
{
    reveal_strlit(":");
    let head = provider + ":"@ + model + ":"@;
    let x = hash_input(provider, model, Some(a.0), Some(a.1));
    let y = hash_input(provider, model, Some(b.0), Some(b.1));
    let s = text::decimal_view(a.0 as nat);
    let t = text::decimal_view(b.0 as nat);
    let u = text::decimal_view(a.1 as nat);
    let v = text::decimal_view(b.1 as nat);
    assert(x =~= head + (s + ":"@ + u));
    assert(y =~= head + (t + ":"@ + v));
    assert(x.take(head.len() as int) =~= head);
    assert(x.skip(x.len() - (":"@ + u).len()) =~= ":"@ + u);
    text::law_decimals_stand_for_their_number(a.0 as nat);
    text::law_decimals_stand_for_their_number(b.0 as nat);
    text::law_decimals_stand_for_their_number(a.1 as nat);
    text::law_decimals_stand_for_their_number(b.1 as nat);
    if x == y {
        let p = s + ":"@ + u;
        let q = t + ":"@ + v;
        assert(x.skip(head.len() as int) =~= p);
        assert(y.skip(head.len() as int) =~= q);
        assert(p[s.len() as int] == ':');
        assert(q[t.len() as int] == ':');
        if s.len() < t.len() {
            assert(q[s.len() as int] == t[s.len() as int]);
        }
        if t.len() < s.len() {
            assert(p[t.len() as int] == s[t.len() as int]);
        }
        assert(s =~= p.take(s.len() as int));
        assert(t =~= q.take(t.len() as int));
        assert(u =~= p.skip(s.len() as int + 1));
        assert(v =~= q.skip(t.len() as int + 1));
    }
}

/// A route carries the first sixteen digits of the hash that is taken of its provider, its model
/// and the limits that it shows.
pub proof fn law_routes_carry_the_hash_of_what_they_show(
    catalog: &ModelCatalogConfig,
    rates: &ModelCatalogConfig,
    provider: Seq<char>,
    model: Seq<char>,
    configured: bool,
    soft: Option<u64>,
    hard: Option<u64>,
)
    ensures
        ({
            let e = built(catalog, rates, provider, model, configured, soft, hard);
            let hex = blake3_hex(
                hash_input(provider, model, e.context_soft_limit, e.context_hard_limit),
            );
            hex.len() >= 16 ==> e.hash.len() == 16 && text::has_prefix(hex, e.hash)
        }),
{
}

/// A route shows what the catalog states of its provider and its model. The limits of the model
/// prevail over those handed in, and the rates are those of the card, if there is one.
pub proof fn law_routes_show_what_the_catalog_states(
    catalog: &ModelCatalogConfig,
    rates: &ModelCatalogConfig,
    provider: Seq<char>,
    model: Seq<char>,
    configured: bool,
    soft: Option<u64>,
    hard: Option<u64>,
)
    ensures
        ({
            let e = built(catalog, rates, provider, model, configured, soft, hard);
            let s = catalog.resolved(model);
            let p = catalog.provider_for(provider);
            let card = pricing::card_for(rates, provider, model);
            &&& e.provider_kind == provider
            &&& e.model == model
            &&& e.configured == configured
            &&& p is Some ==> e.provider_label == p->0.label.deep_view() && e.provider_aliases
                == p->0.aliases.deep_view() && e.provider_quirks == p->0.quirks.deep_view()
            &&& p is None ==> e.provider_label is None && e.provider_aliases.len() == 0
                && e.provider_quirks.len() == 0
            &&& e.label == s.label
            &&& e.aliases == s.aliases
            &&& e.quirks == s.quirks
            &&& e.max_output_tokens == s.max_output_tokens
            &&& model_catalog::prevails(e.context_soft_limit, s.context_soft_limit, soft)
            &&& model_catalog::prevails(e.context_hard_limit, s.context_hard_limit, hard)
            &&& card is Some ==> e.pricing_input_per_mtok == Some(card->0.input_per_mtok)
                && e.pricing_output_per_mtok == Some(card->0.output_per_mtok)
            &&& card is None ==> e.pricing_input_per_mtok is None
                && e.pricing_output_per_mtok is None
            &&& e.favorites == favorites_of(catalog, provider, model)
            &&& e.default_effort == default_of(provider, s)
            &&& e.valid_effort_levels is Some <==> levels_of(provider, s).len() > 0
            &&& e.valid_effort_levels is Some ==> e.valid_effort_levels->0 == levels_of(provider, s)
        }),
{
}

/// Every seed has its route, at its place, with its limits unless the model states its own, and
/// configured exactly if its provider can be used; after them stands the one that needs no
/// provider, which is always configured.
pub proof fn law_every_seed_has_its_route(
    catalog: &ModelCatalogConfig,
    rates: &ModelCatalogConfig,
    availability: ProviderAvailability,
    seeds: Seq<SeedView>,
    i: int,
)
    requires
        0 <= i <= seeds.len(),
    ensures
        ({
            let routes = seeded(catalog, rates, availability, seeds);
            &&& routes.len() == seeds.len() + 1
            &&& i < seeds.len() ==> {
                &&& routes[i].provider_kind == seeds[i].provider
                &&& routes[i].model == seeds[i].model
                &&& routes[i].configured == availability.available(seeds[i].provider)
                &&& model_catalog::prevails(
                    routes[i].context_soft_limit,
                    catalog.resolved(seeds[i].model).context_soft_limit,
                    Some(seeds[i].soft),
                )
                &&& model_catalog::prevails(
                    routes[i].context_hard_limit,
                    catalog.resolved(seeds[i].model).context_hard_limit,
                    Some(seeds[i].hard),
                )
            }
            &&& i == seeds.len() ==> {
                &&& routes[i].provider_kind == "faux"@
                &&& routes[i].model == "faux"@
                &&& routes[i].configured
                &&& model_catalog::prevails(
                    routes[i].context_soft_limit,
                    catalog.resolved("faux"@).context_soft_limit,
                    Some(128_000u64),
                )
                &&& model_catalog::prevails(
                    routes[i].context_hard_limit,
                    catalog.resolved("faux"@).context_hard_limit,
                    Some(128_000u64),
                )
            }
        }),
{
}

/// Without a family the seeds are those with one, but for the ones of that family; every seed has
/// limits, and its soft limit is within its hard limit.
pub proof fn law_seeds_of_a_family_come_on_top(family: Seq<char>, i: int)
    requires
        0 <= i < default_seeds_view(Some(family)).len(),
    ensures
        ({
            let with = default_seeds_view(Some(family));
            let without = default_seeds_view(None);
            &&& without.len() == 4
            &&& with.len() == 11
            &&& without == with.subrange(4, 5) + with.subrange(8, 11)
            &&& 0 < with[i].soft <= with[i].hard
            &&& i < 4 ==> with[i].provider == "anthropic_api"@ && text::has_prefix(
                with[i].model,
                family + "-"@,
            )
            &&& 5 <= i < 8 ==> with[i].provider == "openrouter"@ && text::has_prefix(
                with[i].model,
                "anthropic/"@ + family + "-"@,
            )
        }),
{
    let with = default_seeds_view(Some(family));
    let without = default_seeds_view(None);
    assert(without =~= with.subrange(4, 5) + with.subrange(8, 11));
    reveal_strlit("-");
    reveal_strlit("-opus-4-8");
    reveal_strlit("-opus-4-7");
    reveal_strlit("-sonnet-4-6");
    reveal_strlit("-haiku-4-5");
    reveal_strlit("-opus-4.7");
    reveal_strlit("-sonnet-4.6");
    if i < 4 {
        let head = family + "-"@;
        assert(with[i].model.take(head.len() as int) =~= head);
    } else if 5 <= i < 8 {
        let head = "anthropic/"@ + family + "-"@;
        assert(with[i].model.take(head.len() as int) =~= head);
    }
}

/// A route that is added is there afterwards, and as it was handed in if it was not there before.
/// Nothing else changes, but that a route that was there is configured from now on if the added one
/// is.
pub proof fn law_an_added_route_is_there(routes: Seq<RouteEntryView>, e: RouteEntryView)
    ensures
        ({
            let after = upserted(routes, e);
            let known = exists|i: int|
                0 <= i < routes.len() && (#[trigger] routes[i]).provider_kind == e.provider_kind
                    && routes[i].model == e.model;
            &&& exists|i: int|
                0 <= i < after.len() && (#[trigger] after[i]).provider_kind == e.provider_kind
                    && after[i].model == e.model && (e.configured ==> after[i].configured)
            &&& !known ==> after == routes.push(e)
            &&& known ==> after.len() == routes.len()
            &&& forall|i: int|
                0 <= i < routes.len() && (#[trigger] after[i]).configured
                    ==> routes[i].configured || (e.configured && routes[i].provider_kind
                    == e.provider_kind && routes[i].model == e.model)
        }),
{
    let p = is_route(e.provider_kind, e.model);
    let after = upserted(routes, e);
    seqs::lemma_find(routes, p);
    match seqs::find(routes, p) {
        Some(i) => {
            assert(p(routes[i]));
            assert(after[i].provider_kind == e.provider_kind);
        },
        None => {
            assert forall|i: int| 0 <= i < routes.len() implies !((
            #[trigger] routes[i]).provider_kind == e.provider_kind && routes[i].model == e.model) by {
                assert(!p(routes[i]));
            }
            assert(after[routes.len() as int] == e);
        },
    }
}

/// Routes are added one after the other.
pub proof fn law_routes_are_added_in_turn(
    routes: Seq<RouteEntryView>,
    a: Seq<RouteEntryView>,
    b: Seq<RouteEntryView>,
    e: RouteEntryView,
)
    ensures
        upserted_all(routes, a + b) == upserted_all(upserted_all(routes, a), b),
        upserted_all(routes, seq![e]) == upserted(routes, e),
        upserted_all(routes, Seq::empty()) == routes,
    decreases b.len(),
{
    assert(seq![e].drop_last() =~= Seq::empty());
    assert(upserted_all(routes, seq![e].drop_last()) == routes);
    if b.len() == 0 {
        assert(a + b =~= a);
    } else {
        assert((a + b).drop_last() =~= a + b.drop_last());
        law_routes_are_added_in_turn(routes, a, b.drop_last(), e);
    }
}

/// Every discovered model has a route at its place: configured, and with no limits but those that
/// the catalog states.
pub proof fn law_every_discovered_model_has_a_route(
    catalog: &ModelCatalogConfig,
    rates: &ModelCatalogConfig,
    provider: Seq<char>,
    models: Seq<Seq<char>>,
    i: int,
)
    requires
        0 <= i < models.len(),
    ensures
        ({
            let routes = discovered(catalog, rates, provider, models);
            &&& routes.len() == models.len()
            &&& routes[i].provider_kind == provider
            &&& routes[i].model == models[i]
            &&& routes[i].configured
            &&& routes[i].context_soft_limit == catalog.resolved(models[i]).context_soft_limit
            &&& routes[i].context_hard_limit == catalog.resolved(models[i]).context_hard_limit
        }),
{
}

/// A name has a route to the model at the end of its chain, configured exactly if the provider can
/// be used; a name that stands for nothing has none.
pub proof fn law_names_have_a_route_to_their_model(
    catalog: &ModelCatalogConfig,
    rates: &ModelCatalogConfig,
    availability: ProviderAvailability,
    provider: Seq<char>,
    name: Seq<char>,
)
    ensures
        ({
            let routes = named_route(catalog, rates, availability, provider, name);
            let model = model_catalog::chase(
                model_catalog::entries(catalog.models@),
                name,
                Set::empty(),
            );
            let blank = forall|i: int|
                0 <= i < model.len() ==> text::is_white_space(#[trigger] model[i]);
            &&& blank ==> routes.len() == 0
            &&& !blank ==> routes.len() == 1 && routes[0].provider_kind == provider
                && routes[0].model == model && routes[0].configured == availability.available(
                provider,
            ) && routes[0].context_soft_limit == catalog.resolved(model).context_soft_limit
                && routes[0].context_hard_limit == catalog.resolved(model).context_hard_limit
        }),
{
    let model = model_catalog::chase(
        model_catalog::entries(catalog.models@),
        name,
        Set::empty(),
    );
    let blank = forall|i: int| 0 <= i < model.len() ==> text::is_white_space(#[trigger] model[i]);
    if blank {
        text::law_trimming_finds_the_core(model, Seq::empty(), Seq::empty());
        assert(model + Seq::<char>::empty() + Seq::<char>::empty() =~= model);
    } else {
        let p = text::blank();
        text::law_stripping_takes_one_end(model, p);
        let t = text::strip_front(model, p);
        text::law_stripping_takes_one_end(t, p);
        if text::trim_view(model).len() == 0 {
            assert forall|i: int| 0 <= i < model.len() implies text::is_white_space(
                #[trigger] model[i],
            ) by {
                let k = model.len() - t.len();
                if i >= k {
                    assert(p(t[i - k]));
                    assert(t[i - k] == model[i]);
                } else {
                    assert(p(model[i]));
                }
            }
        }
    }
}

/// Favorites, models and files give their routes one after the other: a favorite that to the model
/// it names with the provider it names, a model that of its own name or else of its key, and a file
/// those of its models with the provider in its name, or none if it is no file of a provider.
pub proof fn law_routes_of_favorites_and_models(
    catalog: &ModelCatalogConfig,
    rates: &ModelCatalogConfig,
    availability: ProviderAvailability,
    provider: Seq<char>,
    favorites: Seq<(Seq<char>, FavoriteConfig)>,
    f: (Seq<char>, FavoriteConfig),
    models: Seq<(Seq<char>, ModelCatalogEntry)>,
    m: (Seq<char>, ModelCatalogEntry),
    layers: Seq<GeneratedLayer>,
    layer: GeneratedLayer,
)
    ensures
        favorite_routes(catalog, rates, availability, Seq::empty()).len() == 0,
        favorite_routes(catalog, rates, availability, favorites.push(f)) == favorite_routes(
            catalog,
            rates,
            availability,
            favorites,
        ) + named_route(
            catalog,
            rates,
            availability,
            kind_of(catalog, f.1.provider@),
            f.1.model@,
        ),
        model_routes(catalog, rates, availability, provider, Seq::empty()).len() == 0,
        m.1.model is Some ==> model_routes(catalog, rates, availability, provider, models.push(m))
            == model_routes(catalog, rates, availability, provider, models) + named_route(
            catalog,
            rates,
            availability,
            provider,
            m.1.model->0@,
        ),
        m.1.model is None ==> model_routes(catalog, rates, availability, provider, models.push(m))
            == model_routes(catalog, rates, availability, provider, models) + named_route(
            catalog,
            rates,
            availability,
            provider,
            m.0,
        ),
        layers_routes(catalog, rates, availability, Seq::empty()).len() == 0,
        generated_for(layer.file_name@) is None ==> layers_routes(
            catalog,
            rates,
            availability,
            layers.push(layer),
        ) == layers_routes(catalog, rates, availability, layers),
        generated_for(layer.file_name@) matches Some(p) ==> layers_routes(
            catalog,
            rates,
            availability,
            layers.push(layer),
        ) == layers_routes(catalog, rates, availability, layers) + model_routes(
            catalog,
            rates,
            availability,
            kind_of(catalog, p),
            layer.models.pairs(),
        ),
{
    assert(favorites.push(f).drop_last() =~= favorites);
    assert(models.push(m).drop_last() =~= models);
    assert(layers.push(layer).drop_last() =~= layers);
    if generated_for(layer.file_name@) is None {
        let before = layers_routes(catalog, rates, availability, layers);
        assert(before + Seq::<RouteEntryView>::empty() =~= before);
    }
}

/// A route is found by its provider and model or by its hash exactly if it is there, the first of
/// several, and the configured routes are those that are configured.
pub proof fn law_routes_are_found(
    routes: &RouteCatalog,
    provider: &str,
    model: &str,
    found: Option<&RouteEntry>,
    hash: &str,
    hashed: Option<&RouteEntry>,
    configured: Vec<&RouteEntry>,
    e: RouteEntryView,
)
    requires
        call_ensures(RouteCatalog::find, (routes, provider, model), found),
        call_ensures(RouteCatalog::find_by_hash, (routes, hash), hashed),
        call_ensures(RouteCatalog::configured_entries, (routes,), configured),
    ensures
        found is Some <==> exists|i: int|
            0 <= i < routes@.len() && (#[trigger] routes@[i]).provider_kind == provider@
                && routes@[i].model == model@,
        found matches Some(f) ==> f.provider_kind@ == provider@ && f.model@ == model@
            && routes@.contains(f.deep_view()),
        hashed is Some <==> exists|i: int|
            0 <= i < routes@.len() && (#[trigger] routes@[i]).hash == hash@,
        hashed matches Some(f) ==> f.hash@ == hash@ && routes@.contains(f.deep_view()),
        configured.deep_view().contains(e) <==> routes@.contains(e) && e.configured,
{
    let p = is_route(provider@, model@);
    let q = |e: RouteEntryView| e.hash == hash@;
    seqs::lemma_find(routes@, p);
    seqs::lemma_find(routes@, q);
    seqs::lemma_filter_contains(routes@, |e: RouteEntryView| e.configured);
    if let Some(i) = seqs::find(routes@, p) {
        assert(p(routes@[i]));
        assert(routes@.contains(routes@[i]));
    }
    if let Some(i) = seqs::find(routes@, q) {
        assert(q(routes@[i]));
        assert(routes@.contains(routes@[i]));
    }
    if exists|i: int|
        0 <= i < routes@.len() && (#[trigger] routes@[i]).provider_kind == provider@
            && routes@[i].model == model@ {
        let i = choose|i: int|
            0 <= i < routes@.len() && (#[trigger] routes@[i]).provider_kind == provider@
                && routes@[i].model == model@;
        assert(p(routes@[i]));
    }
    if exists|i: int| 0 <= i < routes@.len() && (#[trigger] routes@[i]).hash == hash@ {
        let i = choose|i: int| 0 <= i < routes@.len() && (#[trigger] routes@[i]).hash == hash@;
        assert(q(routes@[i]));
    }
}

/// The models of a local server are added as routes of that server, and the routes that were there
/// stay.
pub proof fn law_local_models_become_routes(
    routes: RouteCatalog,
    catalog: &ModelCatalogConfig,
    rates: &ModelCatalogConfig,
    models: &Vec<String>,
    ollama: RouteCatalog,
    vllm: RouteCatalog,
)
    requires
        call_ensures(
            RouteCatalog::with_ollama_models_using,
            (routes, catalog, rates, models),
            ollama,
        ),
        call_ensures(RouteCatalog::with_vllm_models, (routes, catalog, rates, models), vllm),
    ensures
        ollama@ == upserted_all(
            routes@,
            discovered(catalog, rates, "ollama"@, models.deep_view()),
        ),
        vllm@ == upserted_all(routes@, discovered(catalog, rates, "vllm"@, models.deep_view())),
        routes@.len() <= ollama@.len(),
        routes@.len() <= vllm@.len(),
{
    law_routes_are_only_added_to(
        routes@,
        discovered(catalog, rates, "ollama"@, models.deep_view()),
    );
    law_routes_are_only_added_to(
        routes@,
        discovered(catalog, rates, "vllm"@, models.deep_view()),
    );
}

/// Seeds are ordered by lane, and every seed is of a provider that can be used where all keys are at
/// hand; seeds with a soft limit of 200000 tokens are those of the family, and all others may be
/// filled up to their hard limit.
pub proof fn law_seeds_are_of_known_providers(family: Seq<char>, a: ProviderAvailability, i: int)
    requires
        call_ensures(ProviderAvailability::all_configured, (), a),
        0 <= i < default_seeds_view(Some(family)).len(),
    ensures
        ({
            let s = default_seeds_view(Some(family))[i];
            &&& a.available(s.provider)
            &&& i < 4 <==> s.provider == "anthropic_api"@
            &&& i == 4 <==> s.provider == "openai_codex"@
            &&& 5 <= i < 10 <==> s.provider == "openrouter"@
            &&& i == 10 <==> s.provider == "vllm"@
            &&& i < 4 || 5 <= i < 8 <==> s.soft == 200_000
            &&& i == 4 || i >= 8 ==> s.soft == s.hard
            &&& i == 4 ==> s.model == "gpt-5.5"@ && s.hard == 1_000_000
            &&& i == 8 ==> s.model == "x-ai/grok-3"@ && s.hard == 131_072
            &&& i == 9 ==> s.model == "google/gemini-2.5-pro"@ && s.hard == 1_000_000
            &&& i == 10 ==> s.model == "Qwen/Qwen3-Coder-30B-A3B-Instruct-FP8"@ && s.hard == 32_768
        }),
{
    law_providers_need_their_own_key(a, Seq::empty());
    lemma_provider_names();
    assert(provider_name(0) != provider_name(2) && provider_name(0) != provider_name(4)
        && provider_name(0) != provider_name(5) && provider_name(2) != provider_name(4)
        && provider_name(2) != provider_name(5) && provider_name(4) != provider_name(5));
}

} // verus!
