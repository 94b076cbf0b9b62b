//! A ceiling on what a session may spend, and the meter that is held against it.
//!
//! The meter keeps what was charged; adding the amounts up is left to the caller, who asks with
//! the sum whether the ceiling is reached.
use vstd::prelude::*;

use crate::agent;
use crate::agent::Usage;
use crate::double::Double;
use crate::model_catalog::ModelCatalogConfig;
use crate::pricing;
use crate::pricing::{Charge, CostBasis, CostLane, ModelPricing};
use crate::session_cost::CostProjection;
use crate::text;

verus! {

/// Which lanes a ceiling counts.
#[derive(Debug, Clone, Copy, PartialEq, Eq, Structural)]
pub enum SpendLanes {
    /// Metered lanes only.
    Billed,
    /// Metered lanes, and what subscription lanes would have cost.
    All,
}

impl Default for SpendLanes {
    fn default() -> (r: Self)
        ensures
            r is Billed,
    {
        SpendLanes::Billed
    }
}

impl SpendLanes {
    /// Whether usage of a lane counts.
    pub open spec fn counts(self, api_equivalent: bool) -> bool {
        self is All || !api_equivalent
    }

    /// The name of the choice.
    pub open spec fn name_view(self) -> Seq<char> {
        match self {
            SpendLanes::Billed => "billed"@,
            SpendLanes::All => "all"@,
        }
    }

    /// The name of the choice.
    pub fn name(self) -> (r: &'static str)
        ensures
            r@ == self.name_view(),
    {
        match self {
            SpendLanes::Billed => "billed",
            SpendLanes::All => "all",
        }
    }
}

/// A limit that can be reached: a finite amount greater than zero.
#[derive(Debug, Clone, Copy, PartialEq, Eq)]
pub struct SpendCeiling {
    max_usd: Double,
    lanes: SpendLanes,
}

/// Why a ceiling could not be built or armed.
#[derive(Debug, Clone, PartialEq, Eq)]
pub enum SpendCeilingError {
    InvalidMax(String),
    Unmeterable { provider_kind: String, model: String },
    Unaccounted { calls: u32 },
    UnknownHistory,
    Unrestored,
}

impl SpendCeilingError {
    /// The message for the caller.
    pub open spec fn text(self) -> Seq<char> {
        match self {
            SpendCeilingError::InvalidMax(got) => {
                "spend ceiling must be a finite amount greater than zero (got "@ + got@
                    + "); to run unlimited, set no ceiling"@
            },
            SpendCeilingError::Unmeterable { provider_kind, model } => {
                "spend ceiling cannot be metered on "@ + provider_kind@ + "/"@ + model@
                    + ": no rate card in the model catalog (models.toml) — add one, or run without a ceiling"@
            },
            SpendCeilingError::Unaccounted { calls } => {
                "spend ceiling is armed but "@ + text::decimal_view(calls as nat)
                    + " call(s) on this session were not accounted for by the provider (no usage reported); the session's spend is unknown and the ceiling cannot bound it — start a new session, or run without a ceiling"@
            },
            SpendCeilingError::UnknownHistory => {
                "spend ceiling is armed on a continued session whose log does not establish its spend (unknown, or a base-rate floor); the ceiling cannot bound it — start a new session, or run without a ceiling"@
            },
            SpendCeilingError::Unrestored => {
                "spend ceiling is armed on a continued session without its spend history (the meter was not restored from the session's log); refusing to grant a fresh allowance — restore the meter from the log projection, or run without a ceiling"@
            },
        }
    }

    /// The message for the caller.
    pub fn message(&self) -> (r: String)
        ensures
            r@ == self.text(),
    {
        match self {
            SpendCeilingError::InvalidMax(got) => {
                "spend ceiling must be a finite amount greater than zero (got ".to_owned().concat(
                    got,
                ).concat("); to run unlimited, set no ceiling")
            },
            SpendCeilingError::Unmeterable { provider_kind, model } => {
                "spend ceiling cannot be metered on ".to_owned().concat(provider_kind).concat(
                    "/",
                ).concat(model).concat(
                    ": no rate card in the model catalog (models.toml) — add one, or run without a ceiling",
                )
            },
            SpendCeilingError::Unaccounted { calls } => {
                let n = text::decimal(*calls as u64);
                "spend ceiling is armed but ".to_owned().concat(&n).concat(
                    " call(s) on this session were not accounted for by the provider (no usage reported); the session's spend is unknown and the ceiling cannot bound it — start a new session, or run without a ceiling",
                )
            },
            SpendCeilingError::UnknownHistory => {
                "spend ceiling is armed on a continued session whose log does not establish its spend (unknown, or a base-rate floor); the ceiling cannot bound it — start a new session, or run without a ceiling".to_owned()
            },
            SpendCeilingError::Unrestored => {
                "spend ceiling is armed on a continued session without its spend history (the meter was not restored from the session's log); refusing to grant a fresh allowance — restore the meter from the log projection, or run without a ceiling".to_owned()
            },
        }
    }
}

impl SpendCeiling {
    #[verifier::type_invariant]
    spec fn reachable(self) -> bool {
        self.max_usd.finite_positive()
    }

    /// The limit.
    pub closed spec fn limit(self) -> Double {
        self.max_usd
    }

    /// The lanes that count.
    pub closed spec fn scope(self) -> SpendLanes {
        self.lanes
    }

    /// A ceiling of `max_usd`, which is refused unless it is finite and greater than zero. `shown`
    /// is the amount as a message shows it.
    pub fn new(max_usd: Double, shown: &str, lanes: SpendLanes) -> (r: Result<
        Self,
        SpendCeilingError,
    >)
        ensures
            match r {
                Ok(c) => max_usd.finite_positive() && c.limit() == max_usd && c.scope() == lanes,
                Err(e) => !max_usd.finite_positive() && e is InvalidMax && e->InvalidMax_0@
                    == shown@,
            },
    {
        if !max_usd.is_finite_positive() {
            return Err(SpendCeilingError::InvalidMax(shown.to_owned()));
        }
        Ok(SpendCeiling { max_usd, lanes })
    }

    /// The limit. Every ceiling that exists can be reached.
    pub fn max_usd(&self) -> (r: Double)
        ensures
            r == self.limit(),
            r.finite_positive(),
    {
        proof {
            use_type_invariant(self);
        }
        self.max_usd
    }

    /// The lanes that count.
    pub fn lanes(&self) -> (r: SpendLanes)
        ensures
            r == self.scope(),
    {
        self.lanes
    }

    /// The card by which a ceiling would meter a provider and a model. Without a card the ceiling
    /// bounds nothing, and is refused.
    pub fn card_for(catalog: &ModelCatalogConfig, provider_kind: &str, model: &str) -> (r: Result<
        ModelPricing,
        SpendCeilingError,
    >)
        ensures
            metered(r, catalog, provider_kind@, model@),
    {
        match pricing::for_model_in(catalog, provider_kind, model) {
            Some(card) => Ok(card),
            None => Err(
                SpendCeilingError::Unmeterable {
                    provider_kind: provider_kind.to_owned(),
                    model: model.to_owned(),
                },
            ),
        }
    }
}

/// Whether `r` is the card of a provider and a model, or says that there is none.
pub open spec fn metered(
    r: Result<ModelPricing, SpendCeilingError>,
    catalog: &ModelCatalogConfig,
    provider: Seq<char>,
    model: Seq<char>,
) -> bool {
    match pricing::card_for(catalog, provider, model) {
        Some(card) => r == Ok::<ModelPricing, SpendCeilingError>(card),
        None => r is Err && r->Err_0 is Unmeterable && r->Err_0->provider_kind@ == provider
            && r->Err_0->model@ == model,
    }
}

/// Why a meter refuses every call for the rest of the session.
#[derive(Debug, Clone, Copy, PartialEq, Eq, Structural)]
pub enum SpendLock {
    /// The log of a continued session does not establish its spend.
    UnknownHistory,
    /// A continued session was given a meter that was not restored from its log.
    Unrestored,
}

/// What a session has spent against its ceiling, request by request.
#[derive(Debug, Clone, PartialEq)]
pub struct SpendMeter {
    ceiling: SpendCeiling,
    spent: Vec<Charge>,
    counted: u32,
    uncounted: Vec<Charge>,
    unaccounted: u32,
    restored: bool,
    lock: Option<SpendLock>,
}

/// The contents of a [`SpendMeter`].
pub struct MeterState {
    pub ceiling: SpendCeiling,
    /// What counts against the ceiling.
    pub spent: Seq<Charge>,
    /// How many requests were counted since the meter was made.
    pub counted: u32,
    /// What the ceiling does not count.
    pub uncounted: Seq<Charge>,
    /// How many calls came back without usage.
    pub unaccounted: u32,
    pub restored: bool,
    pub lock: Option<SpendLock>,
}

impl MeterState {
    /// The meter of a fresh session.
    pub open spec fn fresh(ceiling: SpendCeiling) -> MeterState {
        MeterState {
            ceiling,
            spent: Seq::empty(),
            counted: 0,
            uncounted: Seq::empty(),
            unaccounted: 0,
            restored: false,
            lock: None,
        }
    }

    /// The meter of a session that is continued from a log priced to `charges`. Only an exact
    /// figure restores it.
    pub open spec fn continued(
        ceiling: SpendCeiling,
        charges: Seq<Charge>,
        basis: CostBasis,
        lane: CostLane,
    ) -> MeterState {
        let fresh = MeterState { restored: true, ..MeterState::fresh(ceiling) };
        if !(basis is PerCall) {
            MeterState { lock: Some(SpendLock::UnknownHistory), ..fresh }
        } else if ceiling.scope().counts(lane is ApiEquivalent) {
            MeterState { spent: charges, ..fresh }
        } else {
            MeterState { uncounted: charges, ..fresh }
        }
    }

    /// The meter after one more request.
    pub open spec fn recorded(self, provider: Seq<char>, charge: Charge) -> MeterState {
        if self.ceiling.scope().counts(pricing::is_subscription(provider)) {
            MeterState {
                spent: self.spent.push(charge),
                counted: agent::clamp32((self.counted + 1) as nat),
                ..self
            }
        } else {
            MeterState { uncounted: self.uncounted.push(charge), ..self }
        }
    }

    /// The meter after `calls` calls came back without usage.
    pub open spec fn marked(self, calls: u32) -> MeterState {
        MeterState { unaccounted: agent::clamp32((self.unaccounted + calls) as nat), ..self }
    }

    /// Whether the spend of the session is not known.
    pub open spec fn closed(self) -> bool {
        self.lock is Some || self.unaccounted > 0
    }
}

impl View for SpendMeter {
    type V = MeterState;

    closed spec fn view(&self) -> MeterState {
        MeterState {
            ceiling: self.ceiling,
            spent: self.spent@,
            counted: self.counted,
            uncounted: self.uncounted@,
            unaccounted: self.unaccounted,
            restored: self.restored,
            lock: self.lock,
        }
    }
}

impl SpendMeter {
    /// A meter for a fresh session: nothing spent yet.
    pub fn new(ceiling: SpendCeiling) -> (r: Self)
        ensures
            r@ == MeterState::fresh(ceiling),
    {
        let r = SpendMeter {
            ceiling,
            spent: Vec::new(),
            counted: 0,
            uncounted: Vec::new(),
            unaccounted: 0,
            restored: false,
            lock: None,
        };
        proof {
            assert(r.spent@ =~= Seq::empty());
            assert(r.uncounted@ =~= Seq::empty());
        }
        r
    }

    /// A meter for a continued session, restored from what its log was priced to. An unknown
    /// figure, or one that is only a lower bound, locks the meter. When subscription lanes do not
    /// count, a history on these alone counts as nothing spent, and a mixed one counts in full.
    pub fn from_projection(ceiling: SpendCeiling, projection: &CostProjection) -> (r: Self)
        ensures
            r@ == MeterState::continued(
                ceiling,
                projection.session.charges@,
                projection.session.basis,
                projection.session.lane,
            ),
    {
        let mut meter = Self::new(ceiling);
        meter.restored = true;
        match projection.session.basis {
            CostBasis::Unknown | CostBasis::BaseRate => {
                meter.lock = Some(SpendLock::UnknownHistory);
            },
            CostBasis::PerCall => {
                let charges = projection.session.charges.clone();
                proof {
                    assert(charges@ =~= projection.session.charges@);
                }
                match (ceiling.lanes, projection.session.lane) {
                    (SpendLanes::Billed, CostLane::ApiEquivalent) => {
                        meter.uncounted = charges;
                    },
                    _ => {
                        meter.spent = charges;
                    },
                }
            },
        }
        meter
    }

    /// Whether this meter was restored from a log.
    pub fn restored(&self) -> (r: bool)
        ensures
            r == self@.restored,
    {
        self.restored
    }

    /// Locks the meter of a continued session that was not restored.
    pub fn lock_unrestored(&mut self)
        ensures
            final(self)@ == (MeterState { lock: Some(SpendLock::Unrestored), ..old(self)@ }),
    {
        self.lock = Some(SpendLock::Unrestored);
    }

    /// Whether the next call to a provider and a model may run under the ceiling, and the card it
    /// will be metered by.
    pub fn preflight(&self, catalog: &ModelCatalogConfig, provider_kind: &str, model: &str) -> (r:
        Result<ModelPricing, SpendCeilingError>)
        ensures
            self@.lock == Some(SpendLock::UnknownHistory) ==> r is Err && r->Err_0
                is UnknownHistory,
            self@.lock == Some(SpendLock::Unrestored) ==> r is Err && r->Err_0 is Unrestored,
            self@.lock is None && self@.unaccounted > 0 ==> r is Err && r->Err_0 is Unaccounted
                && r->Err_0->calls == self@.unaccounted,
            !self@.closed() ==> metered(r, catalog, provider_kind@, model@),
    {
        match self.lock {
            Some(SpendLock::UnknownHistory) => {
                return Err(SpendCeilingError::UnknownHistory);
            },
            Some(SpendLock::Unrestored) => {
                return Err(SpendCeilingError::Unrestored);
            },
            None => {},
        }
        if self.unaccounted > 0 {
            return Err(SpendCeilingError::Unaccounted { calls: self.unaccounted });
        }
        SpendCeiling::card_for(catalog, provider_kind, model)
    }

    /// Notes that `calls` calls ran without reporting usage.
    pub fn mark_unaccounted(&mut self, calls: u32)
        ensures
            final(self)@ == old(self)@.marked(calls),
    {
        self.unaccounted = self.unaccounted.saturating_add(calls);
    }

    /// How many calls ran without reporting usage.
    pub fn unaccounted_calls(&self) -> (r: u32)
        ensures
            r == self@.unaccounted,
    {
        self.unaccounted
    }

    /// The ceiling.
    pub fn ceiling(&self) -> (r: SpendCeiling)
        ensures
            r == self@.ceiling,
    {
        self.ceiling
    }

    /// What counts against the ceiling, in order.
    pub fn spent(&self) -> (r: &Vec<Charge>)
        ensures
            r@ == self@.spent,
    {
        &self.spent
    }

    /// What the ceiling does not count, in order.
    pub fn uncounted(&self) -> (r: &Vec<Charge>)
        ensures
            r@ == self@.uncounted,
    {
        &self.uncounted
    }

    /// How many requests were counted since the meter was made.
    pub fn counted_requests(&self) -> (r: u32)
        ensures
            r == self@.counted,
    {
        self.counted
    }

    /// Charges one request under `card`. On a subscription lane it counts only if the ceiling
    /// covers all lanes.
    pub fn record(&mut self, provider_kind: &str, card: &ModelPricing, usage: &Usage)
        ensures
            final(self)@ == old(self)@.recorded(
                provider_kind@,
                Charge { card: *card, usage: *usage, per_request: true },
            ),
    {
        let charge = Charge { card: *card, usage: *usage, per_request: true };
        let api_equivalent = pricing::is_api_equivalent_lane(provider_kind);
        if api_equivalent && self.ceiling.lanes == SpendLanes::Billed {
            self.uncounted.push(charge);
        } else {
            self.spent.push(charge);
            self.counted = self.counted.saturating_add(1);
        }
    }

    /// Whether `spent`, the sum of what counts, has reached the ceiling.
    pub fn reached(&self, spent: Double) -> (r: bool)
        ensures
            r == spent.at_least(self@.ceiling.limit()),
    {
        spent.is_at_least(self.ceiling.max_usd)
    }

    /// One line for a stop or a status, such as `$0.4213 of $2.00 (lanes: billed)`, from the two
    /// amounts as they are shown.
    pub fn describe(&self, spent: &str, limit: &str) -> (r: String)
        ensures
            r@ == "$"@ + spent@ + " of $"@ + limit@ + " (lanes: "@
                + self@.ceiling.scope().name_view() + (if self@.unaccounted > 0 {
                ", "@ + text::decimal_view(self@.unaccounted as nat) + " call(s) unaccounted"@
            } else {
                Seq::empty()
            }) + ")"@,
    {
        let unaccounted = if self.unaccounted > 0 {
            let n = text::decimal(self.unaccounted as u64);
            ", ".to_owned().concat(&n).concat(" call(s) unaccounted")
        } else {
            String::new()
        };
        proof {
            if self.unaccounted == 0 {
                assert(unaccounted@ =~= Seq::empty());
            }
        }
        "$".to_owned().concat(spent).concat(" of $").concat(limit).concat(" (lanes: ").concat(
            self.ceiling.lanes.name(),
        ).concat(&unaccounted).concat(")")
    }
}

/// The standing ceiling of a configuration; off unless it is enabled.
#[derive(Debug, Clone, Copy, PartialEq, Eq, Structural)]
pub struct SpendConfig {
    pub enabled: bool,
    pub max_usd: Option<Double>,
    pub lanes: SpendLanes,
}

impl Default for SpendConfig {
    fn default() -> (r: Self)
        ensures
            !r.enabled,
            r.max_usd is None,
            r.lanes is Billed,
    {
        SpendConfig { enabled: false, max_usd: None, lanes: SpendLanes::Billed }
    }
}

impl SpendConfig {
    /// The ceiling that this configuration arms: none unless it is enabled. An enabled
    /// configuration without a valid amount is an error. `shown` is the amount as a message shows
    /// it.
    pub fn ceiling(&self, shown: &str) -> (r: Result<Option<SpendCeiling>, SpendCeilingError>)
        ensures
            match r {
                Ok(None) => !self.enabled,
                Ok(Some(c)) => self.enabled && self.max_usd == Some(c.limit()) && c.scope()
                    == self.lanes && c.limit().finite_positive(),
                Err(e) => self.enabled && e is InvalidMax && match self.max_usd {
                    Some(max) => !max.finite_positive() && e->InvalidMax_0@ == shown@,
                    None => e->InvalidMax_0@ == "unset"@,
                },
            },
    {
        if !self.enabled {
            return Ok(None);
        }
        match self.max_usd {
            None => Err(SpendCeilingError::InvalidMax("unset".to_owned())),
            Some(max) => match SpendCeiling::new(max, shown, self.lanes) {
                Ok(c) => Ok(Some(c)),
                Err(e) => Err(e),
            },
        }
    }
}

/// A step in the life of a meter.
pub enum MeterStep {
    Record { provider: Seq<char>, charge: Charge },
    Mark { calls: u32 },
    LockUnrestored,
}

/// The meter after a step.
pub open spec fn stepped(m: MeterState, step: MeterStep) -> MeterState {
    match step {
        MeterStep::Record { provider, charge } => m.recorded(provider, charge),
        MeterStep::Mark { calls } => m.marked(calls),
        MeterStep::LockUnrestored => MeterState { lock: Some(SpendLock::Unrestored), ..m },
    }
}

/// The meter after several steps.
pub open spec fn run(m: MeterState, steps: Seq<MeterStep>) -> MeterState
    decreases steps.len(),
{
    if steps.len() == 0 {
        m
    } else {
        stepped(run(m, steps.drop_last()), steps.last())
    }
}

/// The meter fails closed: once the spend is not known, no step opens the meter again.
pub proof fn law_meter_fails_closed(m: MeterState, steps: Seq<MeterStep>)
    requires
        m.closed(),
    ensures
        run(m, steps).closed(),
    decreases steps.len(),
{
    if steps.len() > 0 {
        law_meter_fails_closed(m, steps.drop_last());
    }
}

/// Nothing is refunded: what counts against the ceiling is only ever added to.
pub proof fn law_nothing_is_refunded(m: MeterState, steps: Seq<MeterStep>)
    ensures
        m.spent.len() <= run(m, steps).spent.len(),
        run(m, steps).spent.take(m.spent.len() as int) == m.spent,
        run(m, steps).ceiling == m.ceiling,
    decreases steps.len(),
{
    if steps.len() > 0 {
        law_nothing_is_refunded(m, steps.drop_last());
        let b = run(m, steps.drop_last()).spent;
        let n = run(m, steps).spent;
        assert(n.take(m.spent.len() as int) =~= b.take(m.spent.len() as int));
    } else {
        assert(m.spent.take(m.spent.len() as int) =~= m.spent);
    }
}

/// A continued session is given no fresh allowance: what its log was priced to counts, or is kept
/// apart as usage that the ceiling does not count, or locks the meter.
pub proof fn law_continued_sessions_keep_their_spend(
    ceiling: SpendCeiling,
    charges: Seq<Charge>,
    basis: CostBasis,
    lane: CostLane,
)
    ensures
        ({
            let m = MeterState::continued(ceiling, charges, basis, lane);
            ||| m.closed()
            ||| m.spent == charges
            ||| m.uncounted == charges && lane is ApiEquivalent && ceiling.scope() is Billed
        }),
{
}

/// A ceiling over all lanes counts everything, and one over billed lanes everything but what ran on
/// a subscription.
pub proof fn law_lanes_count_what_they_say(lanes: SpendLanes)
    ensures
        lanes.counts(false),
        lanes.counts(true) <==> lanes is All,
        lanes is Billed ==> lanes.name_view() == "billed"@,
        lanes is All ==> lanes.name_view() == "all"@,
{
}

/// A request is kept exactly once: counted, and as one more request, if the ceiling covers its
/// lane, and apart from that otherwise. Nothing else of the meter changes.
pub proof fn law_every_request_is_kept_once(m: MeterState, provider: Seq<char>, charge: Charge)
    ensures
        ({
            let after = m.recorded(provider, charge);
            let subscription = provider == "anthropic_oauth"@ || provider == "openai_codex"@;
            &&& after.ceiling == m.ceiling
            &&& after.unaccounted == m.unaccounted
            &&& after.restored == m.restored
            &&& after.lock == m.lock
            &&& after.spent.len() + after.uncounted.len() == m.spent.len() + m.uncounted.len() + 1
            &&& !subscription || m.ceiling.scope() is All ==> after.spent == m.spent.push(charge)
                && after.uncounted == m.uncounted && (m.counted < u32::MAX ==> after.counted
                == m.counted + 1)
            &&& subscription && m.ceiling.scope() is Billed ==> after.uncounted == m.uncounted.push(
                charge,
            ) && after.spent == m.spent && after.counted == m.counted
        }),
{
}

/// Calls without usage add up, as far as a `u32` goes, and close the meter; a fresh meter is open.
pub proof fn law_calls_without_usage_close_the_meter(
    m: MeterState,
    a: u32,
    b: u32,
    ceiling: SpendCeiling,
)
    ensures
        a > 0 ==> m.marked(a).closed(),
        m.unaccounted + a <= u32::MAX ==> m.marked(a).unaccounted == m.unaccounted + a,
        m.unaccounted + a > u32::MAX ==> m.marked(a).unaccounted == u32::MAX,
        m.marked(a).marked(b).unaccounted == m.marked(b).marked(a).unaccounted,
        m.marked(a).spent == m.spent,
        m.marked(a).uncounted == m.uncounted,
        m.marked(a).counted == m.counted,
        m.marked(a).lock == m.lock,
        m.marked(a).ceiling == m.ceiling,
        m.closed() <==> m.lock is Some || m.unaccounted > 0,
        stepped(m, MeterStep::LockUnrestored).closed(),
        !MeterState::fresh(ceiling).closed(),
        MeterState::fresh(ceiling).ceiling == ceiling,
        MeterState::fresh(ceiling).spent.len() == 0,
        MeterState::fresh(ceiling).uncounted.len() == 0,
        MeterState::fresh(ceiling).counted == 0,
        !MeterState::fresh(ceiling).restored,
{
}

/// A continued meter is locked exactly if the history is not priced call by call. Otherwise all of
/// the history counts, unless all of it ran on subscriptions and the ceiling is over billed lanes:
/// then none of it does. It counts no request of its own yet.
pub proof fn law_histories_count_whole_or_not_at_all(
    ceiling: SpendCeiling,
    charges: Seq<Charge>,
    basis: CostBasis,
    lane: CostLane,
)
    ensures
        ({
            let m = MeterState::continued(ceiling, charges, basis, lane);
            &&& m.closed() <==> basis is Unknown || basis is BaseRate
            &&& m.closed() ==> m.lock == Some(SpendLock::UnknownHistory) && m.spent.len() == 0
                && m.uncounted.len() == 0
            &&& basis is PerCall && (lane is Billed || lane is Mixed || ceiling.scope() is All)
                ==> m.spent == charges && m.uncounted.len() == 0
            &&& basis is PerCall && lane is ApiEquivalent && ceiling.scope() is Billed
                ==> m.uncounted == charges && m.spent.len() == 0
            &&& m.ceiling == ceiling
            &&& m.restored
            &&& m.counted == 0
            &&& m.unaccounted == 0
        }),
{
}

/// A call can be metered exactly if there is a card for it, and by that card.
pub proof fn law_calls_are_metered_by_their_card(
    r: Result<ModelPricing, SpendCeilingError>,
    catalog: &ModelCatalogConfig,
    provider: Seq<char>,
    model: Seq<char>,
)
    requires
        metered(r, catalog, provider, model),
    ensures
        r is Ok <==> pricing::card_for(catalog, provider, model) is Some,
        r is Ok ==> pricing::card_for(catalog, provider, model) == Some(r->Ok_0),
        r is Err ==> r->Err_0 is Unmeterable && r->Err_0->provider_kind@ == provider
            && r->Err_0->model@ == model,
{
}

/// A call may run exactly if the meter is open and the call can be metered. A locked meter refuses it
/// for its lock, an open one with calls that were not accounted for refuses it for these, and else a
/// call without a card is refused for that.
pub proof fn law_calls_run_under_an_open_meter(
    m: &SpendMeter,
    catalog: &ModelCatalogConfig,
    provider: &str,
    model: &str,
    r: Result<ModelPricing, SpendCeilingError>,
)
    requires
        call_ensures(SpendMeter::preflight, (m, catalog, provider, model), r),
    ensures
        r is Ok <==> m@.lock is None && m@.unaccounted == 0 && pricing::card_for(
            catalog,
            provider@,
            model@,
        ) is Some,
        r is Ok ==> pricing::card_for(catalog, provider@, model@) == Some(r->Ok_0),
        m@.lock == Some(SpendLock::UnknownHistory) ==> r is Err && r->Err_0 is UnknownHistory,
        m@.lock == Some(SpendLock::Unrestored) ==> r is Err && r->Err_0 is Unrestored,
        m@.lock is None && m@.unaccounted > 0 ==> r is Err && r->Err_0 is Unaccounted
            && r->Err_0->calls == m@.unaccounted,
        r is Err && r->Err_0 is Unmeterable ==> m@.lock is None && m@.unaccounted == 0
            && pricing::card_for(catalog, provider@, model@) is None,
{
    match m@.lock {
        Some(SpendLock::UnknownHistory) => {},
        Some(SpendLock::Unrestored) => {},
        None => {},
    }
}

/// A ceiling is a finite amount above zero over the lanes that were chosen, and any other amount is
/// refused as it was shown; the ceiling is reached from that amount on.
pub proof fn law_ceilings_can_be_reached(
    max: Double,
    shown: &str,
    lanes: SpendLanes,
    r: Result<SpendCeiling, SpendCeilingError>,
    m: &SpendMeter,
    spent: Double,
    reached: bool,
)
    requires
        call_ensures(SpendCeiling::new, (max, shown, lanes), r),
        call_ensures(SpendMeter::reached, (m, spent), reached),
    ensures
        r is Ok <==> 0 < max.bits < 0x7FF0_0000_0000_0000,
        r is Ok ==> r->Ok_0.limit() == max && r->Ok_0.scope() == lanes,
        r is Err ==> r->Err_0 is InvalidMax && r->Err_0->InvalidMax_0@ == shown@,
        spent.bits <= 0x7FF0_0000_0000_0000 && 0 < m@.ceiling.limit().bits < 0x7FF0_0000_0000_0000
            ==> (reached <==> spent.bits >= m@.ceiling.limit().bits),
{
}

/// A configuration arms a ceiling exactly if it is enabled with a valid amount; it is an error only
/// if it is enabled without one.
pub proof fn law_configurations_arm_ceilings(
    c: &SpendConfig,
    shown: &str,
    r: Result<Option<SpendCeiling>, SpendCeilingError>,
)
    requires
        call_ensures(SpendConfig::ceiling, (c, shown), r),
    ensures
        !c.enabled <==> r is Ok && r->Ok_0 is None,
        c.enabled && c.max_usd is Some && 0 < c.max_usd->0.bits < 0x7FF0_0000_0000_0000 <==> r is Ok
            && r->Ok_0 is Some,
        r matches Ok(Some(armed)) ==> c.max_usd == Some(armed.limit()) && armed.scope() == c.lanes,
        r is Err && c.max_usd is None ==> r->Err_0 is InvalidMax && r->Err_0->InvalidMax_0@
            == "unset"@,
        r is Err && c.max_usd is Some ==> r->Err_0 is InvalidMax && r->Err_0->InvalidMax_0@
            == shown@,
{
}

/// A meter tells what was spent of what limit on which lanes, and how many calls were not accounted
/// for if there are any.
pub proof fn law_meters_describe_themselves(m: &SpendMeter, spent: &str, limit: &str, r: String)
    requires
        call_ensures(SpendMeter::describe, (m, spent, limit), r),
    ensures
        text::has_prefix(
            r@,
            seq!['$'] + spent@ + " of $"@ + limit@ + " (lanes: "@ + m@.ceiling.scope().name_view(),
        ),
        m@.unaccounted == 0 ==> r@ == seq!['$'] + spent@ + " of $"@ + limit@ + " (lanes: "@
            + m@.ceiling.scope().name_view() + seq![')'],
        m@.unaccounted > 0 ==> text::has_suffix(
            r@,
            text::decimal_view(m@.unaccounted as nat) + " call(s) unaccounted)"@,
        ),
{
    reveal_strlit("$");
    reveal_strlit(")");
    reveal_strlit(" call(s) unaccounted");
    reveal_strlit(" call(s) unaccounted)");
    let head = seq!['$'] + spent@ + " of $"@ + limit@ + " (lanes: "@
        + m@.ceiling.scope().name_view();
    assert(r@.take(head.len() as int) =~= head);
    if m@.unaccounted == 0 {
        assert(r@ =~= head + seq![')']);
    } else {
        let n = text::decimal_view(m@.unaccounted as nat);
        let tail = n + " call(s) unaccounted)"@;
        assert(tail =~= n + " call(s) unaccounted"@ + ")"@);
        assert(r@.skip(r@.len() - tail.len()) =~= tail);
    }
}

/// Recording a request changes the meter as it should, and a meter of a continued session is made of
/// what its log was priced to.
pub proof fn law_meters_record_requests(
    m: &mut SpendMeter,
    provider: &str,
    card: &ModelPricing,
    usage: &Usage,
    ceiling: SpendCeiling,
    projection: &CostProjection,
    continued: SpendMeter,
)
    requires
        call_ensures(SpendMeter::record, (m, provider, card, usage), ()),
        call_ensures(SpendMeter::from_projection, (ceiling, projection), continued),
    ensures
        ({
            let charge = Charge { card: *card, usage: *usage, per_request: true };
            let counts = old(m)@.ceiling.scope() is All || (provider@ != "anthropic_oauth"@
                && provider@ != "openai_codex"@);
            &&& counts ==> final(m)@.spent == old(m)@.spent.push(charge) && final(m)@.uncounted
                == old(m)@.uncounted
            &&& !counts ==> final(m)@.uncounted == old(m)@.uncounted.push(charge)
                && final(m)@.spent == old(m)@.spent
            &&& final(m)@.ceiling == old(m)@.ceiling
            &&& final(m)@.lock == old(m)@.lock
            &&& final(m)@.unaccounted == old(m)@.unaccounted
        }),
        continued@.restored,
        continued@.ceiling == ceiling,
        continued@.closed() <==> !(projection.session.basis is PerCall),
        projection.session.basis is PerCall ==> continued@.spent + continued@.uncounted
            == projection.session.charges@,
{
    law_every_request_is_kept_once(
        old(m)@,
        provider@,
        Charge { card: *card, usage: *usage, per_request: true },
    );
    law_histories_count_whole_or_not_at_all(
        ceiling,
        projection.session.charges@,
        projection.session.basis,
        projection.session.lane,
    );
    if projection.session.basis is PerCall {
        assert(continued@.spent + continued@.uncounted =~= projection.session.charges@);
    }
}

} // verus!
