//! Pricing a session's event log: one pass that says what is charged under which card.
use vstd::prelude::*;

use crate::agent;
use crate::agent::{Usage, UsageSemantics};
use crate::event_log;
use crate::event_log::{EventPayload, SessionEvent};
use crate::model_catalog::ModelCatalogConfig;
use crate::pricing;
use crate::pricing::{Charge, CostBasis, CostLane, ModelPricing, SessionCost};
use crate::seqs;

verus! {

/// What prices usage: the card of provider and model, if there is one, and whether the lane is a
/// subscription.
#[derive(Debug, Clone, Copy, PartialEq, Eq, Structural)]
pub struct Era {
    pub card: Option<ModelPricing>,
    pub api_equiv: bool,
}

impl Era {
    /// Before a provider is known nothing can be priced.
    pub open spec fn none() -> Era {
        Era { card: None, api_equiv: false }
    }

    /// The era of a provider and a model under a usage convention.
    pub open spec fn of(
        catalog: &ModelCatalogConfig,
        provider: Seq<char>,
        model: Seq<char>,
        semantics: Option<UsageSemantics>,
    ) -> Era {
        Era {
            card: match pricing::card_for(catalog, provider, model) {
                Some(c) => Some(c.with_semantics(semantics)),
                None => None,
            },
            api_equiv: pricing::is_subscription(provider),
        }
    }

    /// The era of a provider and a model under a usage convention.
    pub fn new(
        catalog: &ModelCatalogConfig,
        provider_kind: &str,
        model: &str,
        semantics: Option<UsageSemantics>,
    ) -> (r: Self)
        ensures
            r == Era::of(catalog, provider_kind@, model@, semantics),
    {
        Era {
            card: match pricing::for_model_in(catalog, provider_kind, model) {
                Some(c) => Some(c.under_semantics(semantics)),
                None => None,
            },
            api_equiv: pricing::is_api_equivalent_lane(provider_kind),
        }
    }
}

/// The era in force after `events`: that of the latest creation or provider switch.
pub open spec fn era_after(catalog: &ModelCatalogConfig, events: Seq<SessionEvent>) -> Era
    decreases events.len(),
{
    if events.len() == 0 {
        Era::none()
    } else {
        match events.last().payload {
            EventPayload::SessionCreated { provider_kind, model, usage_semantics, .. } => Era::of(
                catalog,
                provider_kind@,
                model@,
                usage_semantics,
            ),
            EventPayload::ProviderSwitched { new_provider_kind, new_model, usage_semantics, .. } => {
                Era::of(catalog, new_provider_kind@, new_model@, usage_semantics)
            },
            _ => era_after(catalog, events.drop_last()),
        }
    }
}

/// What is left of a count after `b` is taken off; a reported count stays reported.
pub open spec fn count_left(a: Option<u64>, b: Option<u64>) -> Option<u64> {
    match a {
        Some(a) => Some(left(a, agent::tokens(b))),
        None => None,
    }
}

/// `a` without `b`, at least zero.
pub open spec fn left(a: u64, b: nat) -> u64 {
    if a <= b {
        0
    } else {
        (a - b) as u64
    }
}

/// What `done` reports beyond `calls`, count by count.
pub open spec fn difference(done: Usage, calls: Usage) -> Usage {
    Usage {
        input_tokens: left(done.input_tokens, calls.input_tokens as nat),
        output_tokens: left(done.output_tokens, calls.output_tokens as nat),
        cache_read_input_tokens: count_left(
            done.cache_read_input_tokens,
            calls.cache_read_input_tokens,
        ),
        cache_creation_input_tokens: count_left(
            done.cache_creation_input_tokens,
            calls.cache_creation_input_tokens,
        ),
        cache_creation_5m_input_tokens: count_left(
            done.cache_creation_5m_input_tokens,
            calls.cache_creation_5m_input_tokens,
        ),
        cache_creation_1h_input_tokens: count_left(
            done.cache_creation_1h_input_tokens,
            calls.cache_creation_1h_input_tokens,
        ),
        reasoning_tokens: count_left(done.reasoning_tokens, calls.reasoning_tokens),
    }
}

/// Whether the split of the cache writes by tier falls short of their total.
pub open spec fn split_falls_short(u: Usage) -> bool {
    match (u.cache_creation_5m_input_tokens, u.cache_creation_1h_input_tokens) {
        (Some(a), Some(b)) => a + b < agent::tokens(u.cache_creation_input_tokens),
        _ => false,
    }
}

/// `u`, without the split of the cache writes by tier if that falls short of their total.
pub open spec fn sound_split(u: Usage) -> Usage {
    if split_falls_short(u) {
        Usage {
            cache_creation_5m_input_tokens: None,
            cache_creation_1h_input_tokens: None,
            ..u
        }
    } else {
        u
    }
}

/// Whether some count of `u` is positive.
pub open spec fn nonzero(u: Usage) -> bool {
    u.input_tokens > 0 || u.output_tokens > 0 || agent::tokens(u.cache_read_input_tokens) > 0
        || agent::tokens(u.cache_creation_input_tokens) > 0 || agent::tokens(
        u.cache_creation_5m_input_tokens,
    ) > 0 || agent::tokens(u.cache_creation_1h_input_tokens) > 0 || agent::tokens(
        u.reasoning_tokens,
    ) > 0
}

/// What `done` reports beyond the recorded calls; none if the calls account for all of it.
pub open spec fn remainder_of(calls: Option<Usage>, done: Usage) -> Option<Usage> {
    let known = match calls {
        Some(c) => c,
        None => Usage::zero(),
    };
    let rest = sound_split(difference(done, known));
    if nonzero(rest) {
        Some(rest)
    } else {
        None
    }
}

fn opt_sub(a: Option<u64>, b: Option<u64>) -> (r: Option<u64>)
    ensures
        r == count_left(a, b),
{
    match a {
        Some(a) => Some(a.saturating_sub(b.unwrap_or(0))),
        None => None,
    }
}

fn opt_positive(v: Option<u64>) -> (r: bool)
    ensures
        r == (agent::tokens(v) > 0),
{
    match v {
        Some(n) => n > 0,
        None => false,
    }
}

fn subtract(done: &Usage, calls: &Usage) -> (r: Usage)
    ensures
        r == difference(*done, *calls),
{
    Usage {
        input_tokens: done.input_tokens.saturating_sub(calls.input_tokens),
        output_tokens: done.output_tokens.saturating_sub(calls.output_tokens),
        cache_read_input_tokens: opt_sub(
            done.cache_read_input_tokens,
            calls.cache_read_input_tokens,
        ),
        cache_creation_input_tokens: opt_sub(
            done.cache_creation_input_tokens,
            calls.cache_creation_input_tokens,
        ),
        cache_creation_5m_input_tokens: opt_sub(
            done.cache_creation_5m_input_tokens,
            calls.cache_creation_5m_input_tokens,
        ),
        cache_creation_1h_input_tokens: opt_sub(
            done.cache_creation_1h_input_tokens,
            calls.cache_creation_1h_input_tokens,
        ),
        reasoning_tokens: opt_sub(done.reasoning_tokens, calls.reasoning_tokens),
    }
}

/// What the total `done` of an ask reports beyond its recorded `calls`, or none when the calls
/// account for all of it. A count that was reported stays reported, also at zero, except that a
/// split of the cache writes that falls short of their total is dropped.
pub fn remainder(calls: Option<Usage>, done: &Usage) -> (r: Option<Usage>)
    ensures
        r == remainder_of(calls, *done),
{
    let known = match calls {
        Some(c) => c,
        None => Usage::default(),
    };
    let mut rest = subtract(done, &known);
    if let (Some(a), Some(b)) = (
        rest.cache_creation_5m_input_tokens,
        rest.cache_creation_1h_input_tokens,
    ) {
        let flat: u64 = rest.cache_creation_input_tokens.unwrap_or(0);
        if (a as u128) + (b as u128) < flat as u128 {
            rest.cache_creation_5m_input_tokens = None;
            rest.cache_creation_1h_input_tokens = None;
        }
    }
    let any = rest.input_tokens > 0 || rest.output_tokens > 0 || opt_positive(
        rest.cache_read_input_tokens,
    ) || opt_positive(rest.cache_creation_input_tokens) || opt_positive(
        rest.cache_creation_5m_input_tokens,
    ) || opt_positive(rest.cache_creation_1h_input_tokens) || opt_positive(rest.reasoning_tokens);
    if any {
        Some(rest)
    } else {
        None
    }
}

/// An ask while a log is read.
pub struct AskState {
    /// The era on which it started, once it has.
    pub started: Option<Era>,
    /// Whether the era changed since.
    pub switched: bool,
    /// The usage of its calls together.
    pub calls: Option<Usage>,
    /// Its charges, as long as every call had a card and reported usage.
    pub cost: Option<Seq<Charge>>,
    /// Whether it met an error.
    pub errored: bool,
}

impl AskState {
    /// An ask that has not started.
    pub open spec fn fresh() -> AskState {
        AskState {
            started: None,
            switched: false,
            calls: None,
            cost: Some(Seq::empty()),
            errored: false,
        }
    }

    /// The ask after it is opened on `era`, if it is not open.
    pub open spec fn opened(self, era: Era) -> AskState {
        if self.started is Some {
            self
        } else {
            AskState { started: Some(era), switched: false, ..self }
        }
    }
}

/// What a log is priced to.
pub struct CostState {
    pub ask: AskState,
    /// What is charged, in order.
    pub charges: Seq<Charge>,
    pub basis: CostBasis,
    pub lane: CostLane,
    /// Whether some usage cannot be priced.
    pub unknown: bool,
    /// The charges of the last ask that was closed.
    pub last_ask: Option<Seq<Charge>>,
}

impl CostState {
    /// Before the first event.
    pub open spec fn start() -> CostState {
        CostState {
            ask: AskState::fresh(),
            charges: Seq::empty(),
            basis: CostBasis::PerCall,
            lane: CostLane::Billed,
            unknown: false,
            last_ask: Some(Seq::empty()),
        }
    }

    /// The state after a model call with the usage `usage` under `era`.
    pub open spec fn after_call(self, era: Era, usage: Option<Usage>) -> CostState {
        let ask = self.ask.opened(era);
        match usage {
            None => CostState { ask: AskState { cost: None, ..ask }, unknown: true, ..self },
            Some(u) => {
                let calls = Some(
                    match ask.calls {
                        Some(c) => c.plus(u),
                        None => u,
                    },
                );
                match era.card {
                    Some(card) => {
                        let c = Charge { card, usage: u, per_request: true };
                        CostState {
                            ask: AskState {
                                calls,
                                cost: match ask.cost {
                                    Some(s) => Some(s.push(c)),
                                    None => None,
                                },
                                ..ask
                            },
                            charges: self.charges.push(c),
                            lane: self.lane.folded(era.api_equiv, self.charges.len() > 0),
                            ..self
                        }
                    },
                    None => CostState {
                        ask: AskState { calls, cost: None, ..ask },
                        unknown: true,
                        ..self
                    },
                }
            },
        }
    }

    /// The state after the ask reported the total `usage` and was closed. What its calls do not
    /// account for is charged at the base rate under the card on which the ask started; it cannot
    /// be charged if the era changed during the ask.
    pub open spec fn after_done(self, era: Era, usage: Option<Usage>) -> CostState {
        let rest = match usage {
            Some(u) => remainder_of(self.ask.calls, u),
            None => None,
        };
        match rest {
            None => CostState { ask: AskState::fresh(), last_ask: self.ask.cost, ..self },
            Some(rest) => {
                let rest_era = match self.ask.started {
                    Some(e) => e,
                    None => era,
                };
                let closed = CostState { ask: AskState::fresh(), last_ask: None, ..self };
                if rest_era.card is Some && !(self.ask.started is Some && self.ask.switched) {
                    CostState {
                        charges: self.charges.push(
                            Charge { card: rest_era.card->0, usage: rest, per_request: false },
                        ),
                        basis: CostBasis::BaseRate,
                        lane: self.lane.folded(rest_era.api_equiv, self.charges.len() > 0),
                        ..closed
                    }
                } else {
                    CostState { unknown: true, ..closed }
                }
            },
        }
    }

    /// The state after the event with payload `p`, under the era `era` in force before it.
    pub open spec fn step(self, era: Era, p: EventPayload) -> CostState {
        match p {
            EventPayload::SessionCreated { .. } => self.after_switch(),
            EventPayload::ProviderSwitched { .. } => self.after_switch(),
            EventPayload::UserMessage { .. } => if self.ask.errored {
                CostState {
                    ask: AskState::fresh().opened(era),
                    last_ask: self.ask.cost,
                    ..self
                }
            } else {
                CostState { ask: self.ask.opened(era), ..self }
            },
            EventPayload::Error { .. } => CostState {
                ask: AskState { errored: self.ask.errored || self.ask.started is Some, ..self.ask },
                ..self
            },
            EventPayload::AssistantMessageEvent { message } => self.after_call(era, message.usage),
            EventPayload::Done { usage, .. } => self.after_done(era, usage),
            _ => self,
        }
    }

    /// The state after the era changed.
    pub open spec fn after_switch(self) -> CostState {
        CostState {
            ask: AskState { switched: self.ask.switched || self.ask.started is Some, ..self.ask },
            ..self
        }
    }

    /// The charges of the most recent ask: of the one in flight, else of the last one closed.
    pub open spec fn recent(self) -> Option<Seq<Charge>> {
        if self.ask.started is Some {
            self.ask.cost
        } else {
            self.last_ask
        }
    }
}

/// What `events` are priced to.
pub open spec fn priced(catalog: &ModelCatalogConfig, events: Seq<SessionEvent>) -> CostState
    decreases events.len(),
{
    if events.len() == 0 {
        CostState::start()
    } else {
        priced(catalog, events.drop_last()).step(
            era_after(catalog, events.drop_last()),
            events.last().payload,
        )
    }
}

/// The cost of a log: of the whole session, and of the most recent ask where it is exact.
#[derive(Debug, Clone, PartialEq)]
pub struct CostProjection {
    pub session: SessionCost,
    pub last_ask: Option<Vec<Charge>>,
}

impl CostProjection {
    /// The cost of a log that could not be read.
    pub fn unknown() -> (r: Self)
        ensures
            r.session.charges@ == Seq::<Charge>::empty(),
            r.session.basis is Unknown,
            r.session.lane is Billed,
            r.last_ask is None,
    {
        CostProjection {
            session: SessionCost::unknown(),
            last_ask: None,
        }
    }
}

/// An ask while a log is read.
struct AskFold {
    started: Option<Era>,
    switched: bool,
    calls: Option<Usage>,
    cost: Option<Vec<Charge>>,
    errored: bool,
}

/// The contents of charges that may be absent.
pub open spec fn charges_view(c: Option<Vec<Charge>>) -> Option<Seq<Charge>> {
    match c {
        Some(v) => Some(v@),
        None => None,
    }
}

impl AskFold {
    spec fn state(self) -> AskState {
        AskState {
            started: self.started,
            switched: self.switched,
            calls: self.calls,
            cost: charges_view(self.cost),
            errored: self.errored,
        }
    }

    fn fresh() -> (r: Self)
        ensures
            r.state() == AskState::fresh(),
    {
        let r = AskFold {
            started: None,
            switched: false,
            calls: None,
            cost: Some(Vec::new()),
            errored: false,
        };
        proof {
            assert(r.cost->0@ =~= Seq::empty());
        }
        r
    }

    fn open(&mut self, era: &Era)
        ensures
            final(self).state() == old(self).state().opened(*era),
    {
        if self.started.is_none() {
            self.started = Some(*era);
            self.switched = false;
        }
    }

    fn note_switch(&mut self)
        ensures
            final(self).state() == (AskState {
                switched: old(self).switched || old(self).started is Some,
                ..old(self).state()
            }),
    {
        if self.started.is_some() {
            self.switched = true;
        }
    }
}

/// The state while a log is read.
struct Fold {
    ask: AskFold,
    charges: Vec<Charge>,
    basis: CostBasis,
    lane: CostLane,
    unknown: bool,
    last_ask: Option<Vec<Charge>>,
}

impl Fold {
    spec fn state(self) -> CostState {
        CostState {
            ask: self.ask.state(),
            charges: self.charges@,
            basis: self.basis,
            lane: self.lane,
            unknown: self.unknown,
            last_ask: charges_view(self.last_ask),
        }
    }

    fn call(self, era: &Era, usage: Option<Usage>) -> (r: Self)
        ensures
            r.state() == self.state().after_call(*era, usage),
    {
        let mut f = self;
        f.ask.open(era);
        let u = match usage {
            Some(u) => u,
            None => {
                f.ask.cost = None;
                f.unknown = true;
                return f;
            },
        };
        f.ask.calls = Some(
            match f.ask.calls {
                Some(c) => c.combine(u),
                None => u,
            },
        );
        match era.card {
            Some(card) => {
                let c = Charge { card, usage: u, per_request: true };
                f.lane = f.lane.fold(era.api_equiv, f.charges.len() > 0);
                f.charges.push(c);
                f.ask.cost = match f.ask.cost {
                    Some(v) => {
                        let mut v = v;
                        v.push(c);
                        Some(v)
                    },
                    None => None,
                };
            },
            None => {
                f.unknown = true;
                f.ask.cost = None;
            },
        }
        f
    }

    fn done(self, era: &Era, usage: Option<Usage>) -> (r: Self)
        ensures
            r.state() == self.state().after_done(*era, usage),
    {
        let mut f = self;
        let rest = match usage {
            Some(u) => remainder(f.ask.calls, &u),
            None => None,
        };
        if let Some(rest) = rest {
            let rest_era = match f.ask.started {
                Some(e) => e,
                None => *era,
            };
            f.ask.cost = None;
            let split = f.ask.started.is_some() && f.ask.switched;
            match rest_era.card {
                Some(card) if !split => {
                    f.lane = f.lane.fold(rest_era.api_equiv, f.charges.len() > 0);
                    f.charges.push(Charge { card, usage: rest, per_request: false });
                    f.basis = CostBasis::BaseRate;
                },
                _ => {
                    f.unknown = true;
                },
            }
        }
        Fold { last_ask: f.ask.cost, ask: AskFold::fresh(), ..f }
    }
}

/// Prices a log. Each model call is charged under the card in force at that call; what an ask
/// reports beyond its calls is charged at the base rate under the card on which the ask started.
/// Usage that cannot be priced makes the cost of the session unknown.
pub fn project(catalog: &ModelCatalogConfig, events: &[SessionEvent]) -> (r: CostProjection)
    ensures
        ({
            let s = priced(catalog, events@);
            &&& s.unknown ==> r.session.basis is Unknown && r.session.lane is Billed
                && r.session.charges@ == Seq::<Charge>::empty()
            &&& !s.unknown ==> r.session.basis == s.basis && r.session.lane == s.lane
                && r.session.charges@ == s.charges
            &&& charges_view(r.last_ask) == s.recent()
        }),
{
    let mut era = Era { card: None, api_equiv: false };
    let mut f = Fold {
        ask: AskFold::fresh(),
        charges: Vec::new(),
        basis: CostBasis::PerCall,
        lane: CostLane::Billed,
        unknown: false,
        last_ask: Some(Vec::new()),
    };
    let mut i: usize = 0;
    proof {
        assert(events@.take(0) =~= Seq::empty());
        assert(f.charges@ =~= Seq::empty());
        assert(f.last_ask->0@ =~= Seq::empty());
    }
    while i < events.len()
        invariant
            i <= events@.len(),
            era == era_after(catalog, events@.take(i as int)),
            f.state() == priced(catalog, events@.take(i as int)),
        decreases events@.len() - i,
    {
        proof {
            seqs::lemma_take_step(events@, i as int);
        }
        match &events[i].payload {
            EventPayload::SessionCreated { provider_kind, model, usage_semantics, .. } => {
                era = Era::new(catalog, provider_kind, model, *usage_semantics);
                f.ask.note_switch();
            },
            EventPayload::ProviderSwitched { new_provider_kind, new_model, usage_semantics, .. } => {
                era = Era::new(catalog, new_provider_kind, new_model, *usage_semantics);
                f.ask.note_switch();
            },
            EventPayload::UserMessage { .. } => {
                if f.ask.errored {
                    f = Fold { last_ask: f.ask.cost, ask: AskFold::fresh(), ..f };
                }
                f.ask.open(&era);
            },
            EventPayload::Error { .. } => {
                if f.ask.started.is_some() {
                    f.ask.errored = true;
                }
            },
            EventPayload::AssistantMessageEvent { message } => {
                f = f.call(&era, message.usage);
            },
            EventPayload::Done { usage, .. } => {
                f = f.done(&era, *usage);
            },
            _ => {},
        }
        i += 1;
    }
    proof {
        assert(events@.take(events@.len() as int) =~= events@);
    }
    let last_ask = if f.ask.started.is_some() {
        f.ask.cost
    } else {
        f.last_ask
    };
    let session = if f.unknown {
        SessionCost::unknown()
    } else {
        SessionCost { charges: f.charges, basis: f.basis, lane: f.lane }
    };
    CostProjection { session, last_ask }
}

/// Nothing that happens later reprices what was charged: the charges of a log are the first
/// charges of every longer log. In particular a provider switch never changes them.
pub proof fn law_charges_are_never_repriced(
    catalog: &ModelCatalogConfig,
    events: Seq<SessionEvent>,
    n: int,
)
    requires
        0 <= n <= events.len(),
    ensures
        priced(catalog, events.take(n)).charges.len() <= priced(catalog, events).charges.len(),
        priced(catalog, events).charges.take(
            priced(catalog, events.take(n)).charges.len() as int,
        ) == priced(catalog, events.take(n)).charges,
    decreases events.len(),
{
    let now = priced(catalog, events).charges;
    if n == events.len() {
        assert(events.take(n) =~= events);
        assert(now.take(now.len() as int) =~= now);
    } else {
        let before = events.drop_last();
        law_charges_are_never_repriced(catalog, before, n);
        assert(before.take(n) =~= events.take(n));
        let b = priced(catalog, before).charges;
        let c = priced(catalog, events.take(n)).charges;
        assert(b.len() <= now.len() && now.take(b.len() as int) =~= b);
        assert(now.take(c.len() as int) =~= b.take(c.len() as int));
    }
}

/// Usage that cannot be priced makes the session unknown for good.
pub proof fn law_unknown_is_permanent(
    catalog: &ModelCatalogConfig,
    events: Seq<SessionEvent>,
    n: int,
)
    requires
        0 <= n <= events.len(),
        priced(catalog, events.take(n)).unknown,
    ensures
        priced(catalog, events).unknown,
    decreases events.len(),
{
    if n == events.len() {
        assert(events.take(n) =~= events);
    } else {
        assert(events.drop_last().take(n) =~= events.take(n));
        law_unknown_is_permanent(catalog, events.drop_last(), n);
    }
}

/// A model call that reports no usage, or that runs without a card, makes the session unknown.
pub proof fn law_unpriceable_call_is_unknown(
    catalog: &ModelCatalogConfig,
    events: Seq<SessionEvent>,
    i: int,
)
    requires
        0 <= i < events.len(),
        events[i].payload is AssistantMessageEvent,
        event_log::message_usage(events[i].payload) is None || era_after(
            catalog,
            events.take(i),
        ).card is None,
    ensures
        priced(catalog, events).unknown,
{
    seqs::lemma_take_step(events, i);
    law_unknown_is_permanent(catalog, events, i + 1);
}

/// A model call that reports usage is charged once, as one request, under the card in force.
pub proof fn law_calls_are_charged_under_the_card_in_force(
    catalog: &ModelCatalogConfig,
    events: Seq<SessionEvent>,
    i: int,
)
    requires
        0 <= i < events.len(),
        event_log::message_usage(events[i].payload) is Some,
        era_after(catalog, events.take(i)).card is Some,
    ensures
        priced(catalog, events.take(i + 1)).charges == priced(
            catalog,
            events.take(i),
        ).charges.push(
            Charge {
                card: era_after(catalog, events.take(i)).card->0,
                usage: event_log::message_usage(events[i].payload)->0,
                per_request: true,
            },
        ),
{
    seqs::lemma_take_step(events, i);
}

/// The basis is per call exactly if every charge is that of one request.
pub proof fn law_basis_tells_the_charges_apart(
    catalog: &ModelCatalogConfig,
    events: Seq<SessionEvent>,
)
    ensures
        !(priced(catalog, events).basis is Unknown),
        priced(catalog, events).basis is PerCall <==> forall|j: int|
            0 <= j < priced(catalog, events).charges.len() ==> (#[trigger] priced(
                catalog,
                events,
            ).charges[j]).per_request,
    decreases events.len(),
{
    if events.len() > 0 {
        law_basis_tells_the_charges_apart(catalog, events.drop_last());
        let b = priced(catalog, events.drop_last());
        let n = priced(catalog, events);
        if n.charges != b.charges {
            assert(n.charges.drop_last() =~= b.charges);
            if n.basis is PerCall {
                assert forall|j: int| 0 <= j < n.charges.len() implies (
                #[trigger] n.charges[j]).per_request by {
                    if j < b.charges.len() {
                        assert(n.charges[j] == b.charges[j]);
                    }
                }
            } else {
                if b.basis is PerCall {
                    assert(!n.charges[n.charges.len() - 1].per_request);
                } else {
                    let j = choose|j: int|
                        0 <= j < b.charges.len() && !(#[trigger] b.charges[j]).per_request;
                    assert(n.charges[j] == b.charges[j]);
                }
            }
        }
    }
}

/// An ask whose calls account for all that it reports has no remainder, however its calls are
/// split up.
pub proof fn law_accounted_asks_have_no_remainder(calls: Usage)
    ensures
        remainder_of(Some(calls), calls) is None,
{
}

/// The number of `calls`' tokens in the count `k`; none without calls.
pub open spec fn called(calls: Option<Usage>, k: int) -> nat {
    if calls is Some {
        agent::count(calls->0, k)
    } else {
        0
    }
}

/// What the calls of an ask leave of its total is exact in every count: it and what the calls
/// account for make up the total, and there is none exactly if no count of the total exceeds that
/// of the calls. What the total reports stays reported, but for a split of the cache writes that
/// falls short of what is left of them.
pub proof fn law_remainders_make_up_the_total(calls: Option<Usage>, done: Usage)
    ensures
        remainder_of(calls, done) is None <==> forall|k: int|
            0 <= k < agent::COUNTS ==> #[trigger] agent::count(done, k) <= called(calls, k),
        remainder_of(calls, done) matches Some(rest) ==> {
            let short = done.cache_creation_5m_input_tokens is Some
                && done.cache_creation_1h_input_tokens is Some && unaccounted(calls, done, 4)
                + unaccounted(calls, done, 5) < unaccounted(calls, done, 3);
            forall|k: int|
                0 <= k < agent::COUNTS ==> {
                    &&& !(short && (k == 4 || k == 5)) ==> #[trigger] agent::count(rest, k)
                        == unaccounted(calls, done, k) && agent::reports(rest, k)
                        == agent::reports(done, k)
                    &&& short && (k == 4 || k == 5) ==> !agent::reports(rest, k)
                }
        },
{
    let d = difference(
        done,
        match calls {
            Some(c) => c,
            None => Usage::zero(),
        },
    );
    assert forall|k: int| 0 <= k < agent::COUNTS implies #[trigger] agent::count(d, k)
        == unaccounted(calls, done, k) by {}
    if remainder_of(calls, done) is None {
        assert forall|k: int| 0 <= k < agent::COUNTS implies #[trigger] agent::count(done, k)
            <= called(calls, k) by {
            assert(agent::count(d, k) == unaccounted(calls, done, k));
        }
    } else if forall|k: int|
        0 <= k < agent::COUNTS ==> #[trigger] agent::count(done, k) <= called(calls, k) {
        assert(agent::count(done, 0) <= called(calls, 0));
        assert(agent::count(done, 1) <= called(calls, 1));
        assert(agent::count(done, 2) <= called(calls, 2));
        assert(agent::count(done, 3) <= called(calls, 3));
        assert(agent::count(done, 4) <= called(calls, 4));
        assert(agent::count(done, 5) <= called(calls, 5));
        assert(agent::count(done, 6) <= called(calls, 6));
    }
}

/// What a total exceeds its calls by in the count `k`.
pub open spec fn unaccounted(calls: Option<Usage>, done: Usage, k: int) -> nat {
    if agent::count(done, k) > called(calls, k) {
        (agent::count(done, k) - called(calls, k)) as nat
    } else {
        0
    }
}

/// An ask without recorded calls leaves all of its total, if there is any and its split of the
/// cache writes does not fall short of them.
pub proof fn law_without_calls_the_total_is_left(done: Usage)
    requires
        exists|k: int| 0 <= k < agent::COUNTS && #[trigger] agent::count(done, k) > 0,
        done.cache_creation_5m_input_tokens is Some && done.cache_creation_1h_input_tokens is Some
            ==> agent::count(done, 4) + agent::count(done, 5) >= agent::count(done, 3),
    ensures
        remainder_of(None, done) == Some(done),
{
    law_remainders_make_up_the_total(None, done);
    let k = choose|k: int| 0 <= k < agent::COUNTS && #[trigger] agent::count(done, k) > 0;
    assert(agent::count(done, k) > called(None, k));
    let rest = remainder_of(None, done)->0;
    assert forall|k: int| 0 <= k < agent::COUNTS implies #[trigger] agent::count(rest, k)
        == agent::count(done, k) && agent::reports(rest, k) == agent::reports(done, k) by {
        assert(agent::count(rest, k) == unaccounted(None, done, k));
    }
    agent::lemma_counts_decide(rest, done);
}

/// Whether an event sets the provider and the model.
pub open spec fn sets_provider(p: EventPayload) -> bool {
    p is SessionCreated || p is ProviderSwitched
}

/// The era in force is that of the event that set provider and model last: its card is that of the
/// catalog for the two, with what the event declares in place of the card's own flags, and its
/// lane is a subscription for `anthropic_oauth` and `openai_codex` alone. Before such an event
/// there is no card.
pub proof fn law_the_latest_provider_is_in_force(
    catalog: &ModelCatalogConfig,
    events: Seq<SessionEvent>,
    i: int,
)
    requires
        -1 <= i < events.len(),
        i >= 0 ==> sets_provider(events[i].payload),
        forall|j: int| i < j < events.len() ==> !sets_provider((#[trigger] events[j]).payload),
    ensures
        i == -1 ==> era_after(catalog, events).card is None,
        i >= 0 ==> {
            let e = era_after(catalog, events);
            let (provider, model, declared) = match events[i].payload {
                EventPayload::SessionCreated { provider_kind, model, usage_semantics, .. } => (
                    provider_kind@,
                    model@,
                    usage_semantics,
                ),
                EventPayload::ProviderSwitched {
                    new_provider_kind,
                    new_model,
                    usage_semantics,
                    ..
                } => (new_provider_kind@, new_model@, usage_semantics),
                _ => (Seq::empty(), Seq::empty(), None),
            };
            let card = pricing::card_for(catalog, provider, model);
            &&& e.api_equiv <==> provider == "anthropic_oauth"@ || provider == "openai_codex"@
            &&& e.card is Some <==> card is Some
            &&& e.card is Some ==> e.card->0.input_per_mtok == card->0.input_per_mtok
                && e.card->0.output_per_mtok == card->0.output_per_mtok
                && e.card->0.cache_read_ratio == card->0.cache_read_ratio
                && e.card->0.cache_write_5m_ratio == card->0.cache_write_5m_ratio
                && e.card->0.cache_write_1h_ratio == card->0.cache_write_1h_ratio
                && e.card->0.long_context == card->0.long_context
            &&& e.card is Some && declared is Some && declared->0.cache_read_in_input is Some
                ==> Some(e.card->0.cache_read_in_input) == declared->0.cache_read_in_input
            &&& e.card is Some && declared is Some && declared->0.cache_creation_in_input is Some
                ==> Some(e.card->0.cache_creation_in_input) == declared->0.cache_creation_in_input
            &&& e.card is Some && (declared is None || declared->0.cache_read_in_input is None)
                ==> e.card->0.cache_read_in_input == card->0.cache_read_in_input
            &&& e.card is Some && (declared is None || declared->0.cache_creation_in_input is None)
                ==> e.card->0.cache_creation_in_input == card->0.cache_creation_in_input
        },
    decreases events.len(),
{
    if events.len() > 0 && i < events.len() - 1 {
        assert(!sets_provider(events[events.len() - 1].payload));
        let before = events.drop_last();
        assert forall|j: int| i < j < before.len() implies !sets_provider(
            (#[trigger] before[j]).payload,
        ) by {
            assert(before[j] == events[j]);
        }
        law_the_latest_provider_is_in_force(catalog, before, i);
    }
}

/// The usages that the calls among `events` report, in order.
pub open spec fn reported_calls(events: Seq<SessionEvent>) -> Seq<Usage>
    decreases events.len(),
{
    if events.len() == 0 {
        Seq::empty()
    } else {
        let before = reported_calls(events.drop_last());
        match events.last().payload {
            EventPayload::AssistantMessageEvent { message } => if message.usage is Some {
                before.push(message.usage->0)
            } else {
                before
            },
            _ => before,
        }
    }
}

/// Whether an event belongs to an ask that runs undisturbed: a message of the user, or a call that
/// reports its usage.
pub open spec fn undisturbed(p: EventPayload) -> bool {
    p is UserMessage || (p is AssistantMessageEvent && p->AssistantMessageEvent_message.usage is Some)
}

/// The sum of a count over usages.
pub open spec fn summed(us: Seq<Usage>, k: int) -> nat
    decreases us.len(),
{
    if us.len() == 0 {
        0
    } else {
        summed(us.drop_last(), k) + agent::count(us.last(), k)
    }
}

/// The charges of usages under a card, each as one request.
pub open spec fn requests(card: ModelPricing, us: Seq<Usage>) -> Seq<Charge> {
    us.map_values(|u: Usage| Charge { card, usage: u, per_request: true })
}

/// The state of an ask that runs undisturbed.
proof fn lemma_running_ask(
    catalog: &ModelCatalogConfig,
    before: Seq<SessionEvent>,
    ask: Seq<SessionEvent>,
)
    requires
        ask.len() > 0,
        forall|j: int| 0 <= j < ask.len() ==> undisturbed((#[trigger] ask[j]).payload),
        before.len() == 0 || before.last().payload is Done,
        era_after(catalog, before).card is Some,
    ensures
        ({
            let card = era_after(catalog, before).card->0;
            let us = reported_calls(ask);
            let s = priced(catalog, before);
            let n = priced(catalog, before + ask);
            &&& era_after(catalog, before + ask) == era_after(catalog, before)
            &&& n.charges == s.charges + requests(card, us)
            &&& n.basis == s.basis
            &&& n.unknown == s.unknown
            &&& n.ask.started == Some(era_after(catalog, before))
            &&& !n.ask.switched
            &&& !n.ask.errored
            &&& n.ask.cost == Some(requests(card, us))
            &&& us.len() == 0 ==> n.ask.calls is None
            &&& us.len() > 0 ==> n.ask.calls is Some
            &&& forall|k: int|
                0 <= k < agent::COUNTS && summed(us, k) <= u64::MAX ==> #[trigger] called(
                    n.ask.calls,
                    k,
                ) == summed(us, k)
        }),
    decreases ask.len(),
{
    let rest = ask.drop_last();
    let e = ask.last();
    assert(undisturbed(ask[ask.len() - 1].payload));
    assert((before + ask).drop_last() =~= before + rest);
    assert((before + ask).last() == e);
    let card = era_after(catalog, before).card->0;
    let us = reported_calls(ask);
    if rest.len() == 0 {
        assert(before + rest =~= before);
        assert(reported_calls(rest).len() == 0);
        assert(priced(catalog, before).ask == AskState::fresh());
    } else {
        assert forall|j: int| 0 <= j < rest.len() implies undisturbed((#[trigger] rest[j]).payload) by {
            assert(rest[j] == ask[j]);
        }
        lemma_running_ask(catalog, before, rest);
    }
    let b = priced(catalog, before + rest);
    let n = priced(catalog, before + ask);
    let old = reported_calls(rest);
    if e.payload is AssistantMessageEvent {
        let u = e.payload->AssistantMessageEvent_message.usage->0;
        assert(us =~= old.push(u));
        assert(us.drop_last() =~= old);
        assert(requests(card, us) =~= requests(card, old).push(
            Charge { card, usage: u, per_request: true },
        ));
        if rest.len() == 0 {
            assert(requests(card, old) =~= Seq::empty());
        }
        assert(n.charges =~= priced(catalog, before).charges + requests(card, us));
        assert(n.ask.cost->0 =~= requests(card, us));
        assert forall|k: int|
            0 <= k < agent::COUNTS && summed(us, k) <= u64::MAX implies #[trigger] called(
            n.ask.calls,
            k,
        ) == summed(us, k) by {
            assert(called(b.ask.calls, k) == summed(old, k));
            if b.ask.calls is Some {
                agent::law_every_count_adds_up(b.ask.calls->0, u);
                assert(agent::count(b.ask.calls->0.plus(u), k) == agent::count(b.ask.calls->0, k)
                    + agent::count(u, k));
            }
        }
    } else {
        assert(us =~= old);
        if rest.len() == 0 {
            assert(requests(card, us) =~= Seq::empty());
            assert(n.charges =~= priced(catalog, before).charges + requests(card, us));
            assert(n.ask.cost->0 =~= requests(card, us));
        } else {
            assert forall|k: int|
                0 <= k < agent::COUNTS && summed(us, k) <= u64::MAX implies #[trigger] called(
                n.ask.calls,
                k,
            ) == summed(us, k) by {
                assert(called(b.ask.calls, k) == summed(old, k));
            }
        }
    }
}

/// An ask that runs undisturbed is charged in full: each call as one request under the card in
/// force, and what the total reports beyond the calls together as one charge at the base rate
/// under the same card. In every count the charges of the ask come to what the total reports, or
/// to what the calls report if that is more, but for a split of cache writes that the remainder
/// drops. The figure of the session is then a base rate, and the ask has no figure of its own;
/// without a remainder the ask's own figure is that of its calls.
pub proof fn law_asks_are_charged_in_full(
    catalog: &ModelCatalogConfig,
    before: Seq<SessionEvent>,
    ask: Seq<SessionEvent>,
    done: SessionEvent,
)
    requires
        ask.len() > 0,
        forall|j: int| 0 <= j < ask.len() ==> undisturbed((#[trigger] ask[j]).payload),
        before.len() == 0 || before.last().payload is Done,
        era_after(catalog, before).card is Some,
        done.payload is Done,
        done.payload->Done_usage is Some,
        forall|k: int|
            0 <= k < agent::COUNTS ==> #[trigger] summed(reported_calls(ask), k) <= u64::MAX,
    ensures
        ({
            let card = era_after(catalog, before).card->0;
            let us = reported_calls(ask);
            let total = done.payload->Done_usage->0;
            let s = priced(catalog, before);
            let n = priced(catalog, (before + ask).push(done));
            let calls = s.charges + requests(card, us);
            let more = exists|k: int|
                0 <= k < agent::COUNTS && #[trigger] agent::count(total, k) > summed(us, k);
            &&& n.unknown == s.unknown
            &&& !more ==> n.charges == calls && n.basis == s.basis && n.recent() == Some(
                requests(card, us),
            )
            &&& more ==> {
                &&& n.charges.len() == calls.len() + 1
                &&& n.charges.drop_last() == calls
                &&& n.charges.last().card == card
                &&& !n.charges.last().per_request
                &&& n.basis is BaseRate
                &&& n.recent() is None
                &&& forall|k: int|
                    0 <= k < agent::COUNTS && k != 4 && k != 5 ==> summed(us, k)
                        + #[trigger] agent::count(n.charges.last().usage, k) == (if agent::count(
                        total,
                        k,
                    ) > summed(us, k) {
                        agent::count(total, k)
                    } else {
                        summed(us, k)
                    })
            }
        }),
{
    let card = era_after(catalog, before).card->0;
    let us = reported_calls(ask);
    let total = done.payload->Done_usage->0;
    lemma_running_ask(catalog, before, ask);
    let b = priced(catalog, before + ask);
    assert((before + ask).push(done).drop_last() =~= before + ask);
    let n = priced(catalog, (before + ask).push(done));
    law_remainders_make_up_the_total(b.ask.calls, total);
    assert forall|k: int| 0 <= k < agent::COUNTS implies #[trigger] called(b.ask.calls, k)
        == summed(us, k) by {
        assert(summed(us, k) <= u64::MAX);
    }
    if remainder_of(b.ask.calls, total) is Some {
        let k = choose|k: int|
            0 <= k < agent::COUNTS && !(#[trigger] agent::count(total, k) <= called(
                b.ask.calls,
                k,
            ));
        assert(called(b.ask.calls, k) == summed(us, k));
        assert(agent::count(total, k) > summed(us, k));
        assert(n.charges.drop_last() =~= b.charges);
        let rest = remainder_of(b.ask.calls, total)->0;
        assert forall|k: int|
            0 <= k < agent::COUNTS && k != 4 && k != 5 implies summed(us, k)
            + #[trigger] agent::count(n.charges.last().usage, k) == (if agent::count(total, k)
            > summed(us, k) {
            agent::count(total, k)
        } else {
            summed(us, k)
        }) by {
            assert(called(b.ask.calls, k) == summed(us, k));
            assert(agent::count(rest, k) == unaccounted(b.ask.calls, total, k));
        }
    } else {
        assert forall|k: int| 0 <= k < agent::COUNTS implies !(#[trigger] agent::count(total, k)
            > summed(us, k)) by {
            assert(agent::count(total, k) <= called(b.ask.calls, k));
            assert(called(b.ask.calls, k) == summed(us, k));
        }
    }
}

/// An ask that is open: it began with a message or a call, and has not been closed.
pub open spec fn opens(p: EventPayload) -> bool {
    p is UserMessage || p is AssistantMessageEvent
}

/// An ask starts with the first message or call, under the era in force there, and that era stays
/// with it; a switch during it is noted. It ends with its total, or with the next message of the
/// user after an error. Events of other kinds leave the cost as it is.
pub proof fn law_asks_start_and_end(
    catalog: &ModelCatalogConfig,
    events: Seq<SessionEvent>,
    e: SessionEvent,
)
    ensures
        ({
            let s = priced(catalog, events);
            let n = priced(catalog, events.push(e));
            let era = era_after(catalog, events);
            &&& opens(e.payload) && s.ask.started is None ==> n.ask.started == Some(era)
                && !n.ask.switched
            &&& opens(e.payload) && s.ask.started is Some && !(e.payload is UserMessage
                && s.ask.errored) ==> n.ask.started == s.ask.started && n.ask.switched
                == s.ask.switched && n.ask.errored == s.ask.errored
            &&& e.payload is UserMessage && s.ask.errored ==> n.ask.started == Some(era)
                && !n.ask.switched && !n.ask.errored && n.ask.calls is None && n.last_ask
                == s.ask.cost && n.recent() == Some(Seq::<Charge>::empty())
            &&& e.payload is UserMessage ==> n.charges == s.charges && n.unknown == s.unknown
            &&& sets_provider(e.payload) ==> n.ask.switched == (s.ask.switched
                || s.ask.started is Some) && n.ask.started == s.ask.started && n.charges
                == s.charges && n.unknown == s.unknown && n.basis == s.basis && n.lane == s.lane
            &&& e.payload is Error ==> n.ask.errored == (s.ask.errored || s.ask.started is Some)
                && n.ask.started == s.ask.started && n.charges == s.charges && n.unknown
                == s.unknown
            &&& e.payload is Done ==> n.ask.started is None && n.ask.calls is None
                && !n.ask.switched && !n.ask.errored && n.ask.cost == Some(Seq::<Charge>::empty())
            &&& !opens(e.payload) && !sets_provider(e.payload) && !(e.payload is Error) && !(
            e.payload is Done) ==> n == s
            &&& s.ask.started is None ==> s.recent() == s.last_ask
            &&& s.ask.started is Some ==> s.recent() == s.ask.cost
        }),
{
    assert(events.push(e).drop_last() =~= events);
}

/// A total that exceeds its calls is charged under the card on which the ask started. It cannot be
/// charged, and makes the session unknown, if that card is missing or the provider changed during
/// the ask. A total without a remainder changes no charge, and the ask keeps its own figure.
pub proof fn law_remainders_are_charged_where_the_ask_started(
    catalog: &ModelCatalogConfig,
    events: Seq<SessionEvent>,
    e: SessionEvent,
)
    requires
        e.payload is Done,
    ensures
        ({
            let s = priced(catalog, events);
            let n = priced(catalog, events.push(e));
            let total = e.payload->Done_usage;
            let era = if s.ask.started is Some {
                s.ask.started->0
            } else {
                era_after(catalog, events)
            };
            let more = total is Some && exists|k: int|
                0 <= k < agent::COUNTS && #[trigger] agent::count(total->0, k) > called(
                    s.ask.calls,
                    k,
                );
            &&& !more ==> n.charges == s.charges && n.unknown == s.unknown && n.basis == s.basis
                && n.lane == s.lane && n.last_ask == s.ask.cost
            &&& more ==> n.last_ask is None
            &&& more && era.card is Some && !s.ask.switched ==> n.charges.drop_last() == s.charges
                && n.charges.len() == s.charges.len() + 1 && n.charges.last().card == era.card->0
                && !n.charges.last().per_request && n.charges.last().usage == remainder_of(
                s.ask.calls,
                total->0,
            )->0 && n.basis is BaseRate && n.unknown == s.unknown
            &&& more && (era.card is None || (s.ask.started is Some && s.ask.switched))
                ==> n.unknown && n.charges == s.charges
        }),
{
    assert(events.push(e).drop_last() =~= events);
    let s = priced(catalog, events);
    let n = priced(catalog, events.push(e));
    let total = e.payload->Done_usage;
    if total is Some {
        law_remainders_make_up_the_total(s.ask.calls, total->0);
        if remainder_of(s.ask.calls, total->0) is Some {
            let k = choose|k: int|
                0 <= k < agent::COUNTS && !(#[trigger] agent::count(total->0, k) <= called(
                    s.ask.calls,
                    k,
                ));
            assert(agent::count(total->0, k) > called(s.ask.calls, k));
            if n.charges.len() > s.charges.len() {
                assert(n.charges.drop_last() =~= s.charges);
            }
        } else {
            assert forall|k: int|
                0 <= k < agent::COUNTS implies !(#[trigger] agent::count(total->0, k) > called(
                s.ask.calls,
                k,
            )) by {
                assert(agent::count(total->0, k) <= called(s.ask.calls, k));
            }
        }
    }
}

/// Whether a provider is a subscription.
pub open spec fn on_subscription(p: EventPayload) -> bool {
    match p {
        EventPayload::SessionCreated { provider_kind, .. } => provider_kind@ == "anthropic_oauth"@
            || provider_kind@ == "openai_codex"@,
        EventPayload::ProviderSwitched { new_provider_kind, .. } => new_provider_kind@
            == "anthropic_oauth"@ || new_provider_kind@ == "openai_codex"@,
        _ => false,
    }
}

/// A session whose providers are all subscriptions is priced as such, and one whose providers are
/// all metered is billed.
pub proof fn law_lanes_tell_what_is_billed(
    catalog: &ModelCatalogConfig,
    events: Seq<SessionEvent>,
    subscription: bool,
)
    requires
        forall|j: int|
            0 <= j < events.len() && sets_provider((#[trigger] events[j]).payload)
                ==> on_subscription(events[j].payload) == subscription,
    ensures
        priced(catalog, events).charges.len() == 0 ==> priced(catalog, events).lane is Billed,
        priced(catalog, events).charges.len() > 0 ==> priced(catalog, events).lane
            == if subscription {
            CostLane::ApiEquivalent
        } else {
            CostLane::Billed
        },
        ({
            let e = era_after(catalog, events);
            e.card is Some ==> e.api_equiv == subscription
        }),
        ({
            let a = priced(catalog, events).ask.started;
            a is Some && a->0.card is Some ==> a->0.api_equiv == subscription
        }),
    decreases events.len(),
{
    if events.len() > 0 {
        let before = events.drop_last();
        assert forall|j: int|
            0 <= j < before.len() && sets_provider((#[trigger] before[j]).payload) implies
            on_subscription(before[j].payload) == subscription by {
            assert(before[j] == events[j]);
        }
        law_lanes_tell_what_is_billed(catalog, before, subscription);
        assert(sets_provider(events[events.len() - 1].payload) ==> on_subscription(
            events[events.len() - 1].payload,
        ) == subscription);
    }
}

/// Usage on a lane of the other kind makes the lane mixed, and a mixed lane stays so.
pub proof fn law_lanes_mix(lane: CostLane)
    ensures
        lane.folded(true, false) is ApiEquivalent,
        lane.folded(false, false) is Billed,
        CostLane::Billed.folded(true, true) is Mixed,
        CostLane::ApiEquivalent.folded(false, true) is Mixed,
        CostLane::Mixed.folded(true, true) is Mixed,
        CostLane::Mixed.folded(false, true) is Mixed,
        CostLane::Billed.folded(false, true) is Billed,
        CostLane::ApiEquivalent.folded(true, true) is ApiEquivalent,
{
}

/// A projection shows the charges of the session and where its figure comes from, or nothing but
/// that it is unknown; and the charges of the ask that runs, or else of the last one.
pub proof fn law_projections_show_what_was_priced(
    catalog: &ModelCatalogConfig,
    events: &[SessionEvent],
    r: CostProjection,
)
    requires
        call_ensures(project, (catalog, events), r),
    ensures
        ({
            let s = priced(catalog, events@);
            &&& s.unknown ==> r.session.basis is Unknown && r.session.charges@.len() == 0
                && r.session.lane is Billed
            &&& !s.unknown ==> r.session.basis == s.basis && r.session.lane == s.lane
                && r.session.charges@ == s.charges
            &&& s.ask.started is Some ==> charges_view(r.last_ask) == s.ask.cost
            &&& s.ask.started is None ==> charges_view(r.last_ask) == s.last_ask
        }),
{
}

} // verus!
