//! The heating zones: which of them call for heat, and the pumps that follow.

use vstd::prelude::*;

use crate::config::Config;
use crate::degrees::Degrees;
use crate::entity::Entity;
use crate::json::{contents, member, Json};
use crate::states::{
    ids_ascending, law_exact_id_finds_its_entity, law_one_entity_is_picked,
    law_selection_is_exact_and_ordered, pick, picked, resolve, selected,
    selects, string_views, Pick, Picked, States,
};
use crate::table::Table;
use crate::text::{concat, contains_char, lemma_precedes_irreflexive, precedes, same};
use crate::throttle::{Attempts, WriteThrottle};
use crate::writes::{
    gate, gated, law_gate_goes_by_the_last_attempt, law_gate_remembers_what_it_sends, Gate,
};

verus! {

/// The margin around a setpoint: the setpoint less the hysteresis, and with it added.
#[derive(Debug, Clone, Copy, PartialEq, Eq, Structural)]
pub struct Band {
    pub low: Degrees,
    pub high: Degrees,
}

/// Whether a thermostat calls for heat: below the margin it does, above it does not, and in
/// between it keeps to what it did.
pub open spec fn heat_wanted(current: Degrees, band: Band, previous: bool) -> bool {
    if current.below(band.low) {
        true
    } else if band.high.below(current) {
        false
    } else {
        previous
    }
}

/// Starts calling below the margin, stops above it, and holds `previous` in between.
pub fn calls_for_heat(current: Degrees, band: Band, previous: bool) -> (calls: bool)
    ensures
        calls == heat_wanted(current, band, previous),
{
    if current.lt(band.low) {
        true
    } else if band.high.lt(current) {
        false
    } else {
        previous
    }
}

/// What a zone thermostat measured, and the setpoint that it has.
#[derive(Debug)]
pub struct Sample {
    pub entity_id: String,
    pub current: Degrees,
    pub setpoint: Degrees,
}

/// What a zone thermostat measured, and the setpoint that it has.
pub struct Measured {
    pub id: Seq<char>,
    pub current: Degrees,
    pub setpoint: Degrees,
}

impl View for Sample {
    type V = Measured;

    open spec fn view(&self) -> Measured {
        Measured { id: self.entity_id@, current: self.current, setpoint: self.setpoint }
    }
}

/// Why a zone thermostat says nothing about heat.
#[derive(Debug)]
pub enum Fault {
    /// The pattern selects no entity.
    NoMatch { pattern: String },
    /// The entity is not available.
    Unavailable { entity_id: String, state: String },
    /// The entity reports no measured temperature or no setpoint.
    Incomplete { entity_id: String },
}

/// Why a zone thermostat says nothing about heat.
pub enum Silence {
    NoMatch(Seq<char>),
    Unavailable(Seq<char>, Seq<char>),
    Incomplete(Seq<char>),
}

impl View for Fault {
    type V = Silence;

    open spec fn view(&self) -> Silence {
        match self {
            Fault::NoMatch { pattern } => Silence::NoMatch(pattern@),
            Fault::Unavailable { entity_id, state } => Silence::Unavailable(entity_id@, state@),
            Fault::Incomplete { entity_id } => Silence::Incomplete(entity_id@),
        }
    }
}

/// What an entity says about heat, if anything.
pub open spec fn measured(entity: Entity) -> Option<Measured> {
    match (
        entity.number_attribute("current_temperature"@),
        entity.number_attribute("temperature"@),
    ) {
        (Some(current), Some(setpoint)) => if entity.available() {
            Some(Measured { id: entity.entity_id@, current, setpoint })
        } else {
            None
        },
        _ => None,
    }
}

/// Why an entity says nothing about heat.
pub open spec fn silence(entity: Entity) -> Option<Silence> {
    if !entity.available() {
        Some(Silence::Unavailable(entity.entity_id@, entity.state@))
    } else if measured(entity) is None {
        Some(Silence::Incomplete(entity.entity_id@))
    } else {
        None
    }
}

/// What the entities say about heat, in their order.
pub open spec fn all_measured(entities: Seq<Entity>) -> Seq<Measured> {
    entities.filter_map(|entity: Entity| measured(entity))
}

/// Why entities say nothing about heat, in their order.
pub open spec fn all_silent(entities: Seq<Entity>) -> Seq<Silence> {
    entities.filter_map(|entity: Entity| silence(entity))
}

/// What the thermostats of a zone say, one pattern after the other.
pub open spec fn zone_measured(entities: Seq<Entity>, patterns: Seq<Seq<char>>) -> Seq<Measured>
    decreases patterns.len(),
{
    if patterns.len() == 0 {
        Seq::empty()
    } else {
        zone_measured(entities, patterns.drop_last()) + all_measured(
            selected(entities, patterns.last()),
        )
    }
}

/// Why thermostats of a zone say nothing, one pattern after the other.
pub open spec fn zone_silent(entities: Seq<Entity>, patterns: Seq<Seq<char>>) -> Seq<Silence>
    decreases patterns.len(),
{
    if patterns.len() == 0 {
        Seq::empty()
    } else {
        let hits = selected(entities, patterns.last());
        zone_silent(entities, patterns.drop_last()) + if hits.len() == 0 {
            seq![Silence::NoMatch(patterns.last())]
        } else {
            all_silent(hits)
        }
    }
}

/// What a look at the thermostats of a zone gave.
#[derive(Debug)]
pub struct Survey {
    pub samples: Vec<Sample>,
    pub faults: Vec<Fault>,
}

/// What samples stand for.
pub open spec fn sample_views(samples: Seq<Sample>) -> Seq<Measured> {
    samples.map_values(|sample: Sample| sample@)
}

/// What faults stand for.
pub open spec fn fault_views(faults: Seq<Fault>) -> Seq<Silence> {
    faults.map_values(|fault: Fault| fault@)
}

impl Survey {
    /// The survey gives what the thermostats of a zone say, and why others say nothing.
    pub open spec fn is_of(self, entities: Seq<Entity>, patterns: Seq<Seq<char>>) -> bool {
        &&& sample_views(self.samples@) == zone_measured(entities, patterns)
        &&& fault_views(self.faults@) == zone_silent(entities, patterns)
    }
}

/// Adds what one entity says to a survey.
fn add_entity(survey: &mut Survey, entity: &Entity)
    ensures
        sample_views(final(survey).samples@) == sample_views(old(survey).samples@) + match measured(
            *entity,
        ) {
            Some(m) => seq![m],
            None => Seq::empty(),
        },
        fault_views(final(survey).faults@) == fault_views(old(survey).faults@) + match silence(
            *entity,
        ) {
            Some(s) => seq![s],
            None => Seq::empty(),
        },
{
    let ghost before = *survey;
    if !entity.is_available() {
        survey.faults.push(
            Fault::Unavailable {
                entity_id: entity.entity_id.clone(),
                state: entity.state.clone(),
            },
        );
    } else {
        match (entity.attr_f64("current_temperature"), entity.attr_f64("temperature")) {
            (Some(current), Some(setpoint)) => {
                survey.samples.push(
                    Sample { entity_id: entity.entity_id.clone(), current, setpoint },
                );
            },
            _ => {
                survey.faults.push(Fault::Incomplete { entity_id: entity.entity_id.clone() });
            },
        }
    }
    assert(sample_views(survey.samples@) =~= sample_views(before.samples@) + match measured(
        *entity,
    ) {
        Some(m) => seq![m],
        None => Seq::empty(),
    });
    assert(fault_views(survey.faults@) =~= fault_views(before.faults@) + match silence(*entity) {
        Some(s) => seq![s],
        None => Seq::empty(),
    });
}

/// Looks at the thermostats of a zone.
pub fn survey_zone(states: &States, patterns: &Vec<String>) -> (survey: Survey)
    ensures
        survey.is_of(states@, string_views(patterns@)),
{
    let ghost names = string_views(patterns@);
    let mut survey = Survey { samples: Vec::new(), faults: Vec::new() };
    let mut i: usize = 0;
    proof {
        assert(names.take(0) =~= Seq::<Seq<char>>::empty());
        assert(sample_views(survey.samples@) =~= zone_measured(states@, names.take(0)));
        assert(fault_views(survey.faults@) =~= zone_silent(states@, names.take(0)));
    }
    while i < patterns.len()
        invariant
            i <= patterns.len(),
            names == string_views(patterns@),
            survey.is_of(states@, names.take(i as int)),
        decreases patterns.len() - i,
    {
        let pattern = &patterns[i];
        let ghost earlier = names.take(i as int);
        let ghost later = names.take(i + 1);
        proof {
            assert(later.drop_last() =~= earlier);
            assert(later.last() == pattern@);
        }
        let hits = resolve(states, pattern.as_str());
        let ghost chosen = selected(states@, pattern@);
        assert(hits@.unref().len() == hits@.len());
        if hits.len() == 0 {
            survey.faults.push(Fault::NoMatch { pattern: pattern.clone() });
            proof {
                assert(chosen.len() == 0);
                assert(all_measured(chosen) =~= Seq::<Measured>::empty());
                assert(fault_views(survey.faults@) =~= zone_silent(states@, earlier) + seq![
                    Silence::NoMatch(pattern@),
                ]);
                assert(sample_views(survey.samples@) =~= zone_measured(states@, earlier)
                    + all_measured(chosen));
            }
        } else {
            let mut k: usize = 0;
            proof {
                assert(chosen.take(0) =~= Seq::<Entity>::empty());
                assert(all_measured(chosen.take(0)) =~= Seq::<Measured>::empty());
                assert(all_silent(chosen.take(0)) =~= Seq::<Silence>::empty());
                assert(sample_views(survey.samples@) =~= zone_measured(states@, earlier)
                    + all_measured(chosen.take(0)));
                assert(fault_views(survey.faults@) =~= zone_silent(states@, earlier) + all_silent(
                    chosen.take(0),
                ));
            }
            while k < hits.len()
                invariant
                    k <= hits.len(),
                    hits@.unref() == chosen,
                    sample_views(survey.samples@) == zone_measured(states@, earlier) + all_measured(
                        chosen.take(k as int),
                    ),
                    fault_views(survey.faults@) == zone_silent(states@, earlier) + all_silent(
                        chosen.take(k as int),
                    ),
                decreases hits.len() - k,
            {
                proof {
                    assert(*hits@[k as int] == chosen[k as int]);
                    assert(chosen.take(k + 1).drop_last() =~= chosen.take(k as int));
                    assert(chosen.take(k + 1).last() == chosen[k as int]);
                }
                add_entity(&mut survey, hits[k]);
                proof {
                    assert(sample_views(survey.samples@) =~= zone_measured(states@, earlier)
                        + all_measured(chosen.take(k + 1)));
                    assert(fault_views(survey.faults@) =~= zone_silent(states@, earlier)
                        + all_silent(chosen.take(k + 1)));
                }
                k += 1;
            }
            assert(chosen.take(k as int) =~= chosen);
        }
        i += 1;
    }
    assert(names.take(i as int) =~= names);
    survey
}

/// What a thermostat decided at the last poll that heard of it. Before that it did not call.
pub open spec fn decided(calling: Map<Seq<char>, bool>, id: Seq<char>) -> bool {
    calling.contains_key(id) && calling[id]
}

/// The decision about one thermostat, and the one before it.
#[derive(Debug, Clone, Copy, PartialEq, Eq, Structural)]
pub struct Verdict {
    pub now: bool,
    pub previous: bool,
}

/// The decisions that are remembered after the thermostats of a zone were judged, one after the
/// other.
pub open spec fn calling_after(
    calling: Map<Seq<char>, bool>,
    samples: Seq<Measured>,
    bands: Seq<Band>,
) -> Map<Seq<char>, bool>
    decreases samples.len(),
{
    if samples.len() == 0 {
        calling
    } else {
        let earlier = calling_after(calling, samples.drop_last(), bands);
        earlier.insert(
            samples.last().id,
            heat_wanted(
                samples.last().current,
                bands[samples.len() - 1],
                decided(earlier, samples.last().id),
            ),
        )
    }
}

/// The decision about the thermostat at `i`, made after those before it.
pub open spec fn verdict_at(
    calling: Map<Seq<char>, bool>,
    samples: Seq<Measured>,
    bands: Seq<Band>,
    i: int,
) -> Verdict {
    let previous = decided(calling_after(calling, samples.take(i), bands), samples[i].id);
    Verdict { now: heat_wanted(samples[i].current, bands[i], previous), previous }
}

/// Some thermostat of a zone calls for heat.
pub open spec fn zone_calls(
    calling: Map<Seq<char>, bool>,
    samples: Seq<Measured>,
    bands: Seq<Band>,
) -> bool {
    exists|i: int| 0 <= i < samples.len() && (#[trigger] verdict_at(calling, samples, bands, i)).now
}

/// Judges the thermostats of a zone and remembers the decisions. The margin of each stands in
/// `bands` at the place of its sample.
pub fn judge(samples: &Vec<Sample>, bands: &Vec<Band>, calling: &mut Table<bool>) -> (verdicts: Vec<
    Verdict,
>)
    requires
        bands@.len() == samples@.len(),
    ensures
        final(calling)@ == calling_after(old(calling)@, sample_views(samples@), bands@),
        verdicts@.len() == samples@.len(),
        forall|i: int|
            0 <= i < verdicts@.len() ==> #[trigger] verdicts@[i] == verdict_at(
                old(calling)@,
                sample_views(samples@),
                bands@,
                i,
            ),
{
    let ghost all = sample_views(samples@);
    let ghost first = calling@;
    let mut verdicts: Vec<Verdict> = Vec::new();
    let mut i: usize = 0;
    assert(all.take(0) =~= Seq::<Measured>::empty());
    while i < samples.len()
        invariant
            i <= samples.len(),
            bands@.len() == samples@.len(),
            all == sample_views(samples@),
            calling@ == calling_after(first, all.take(i as int), bands@),
            verdicts@.len() == i,
            forall|j: int|
                0 <= j < verdicts@.len() ==> #[trigger] verdicts@[j] == verdict_at(
                    first,
                    all,
                    bands@,
                    j,
                ),
        decreases samples.len() - i,
    {
        let sample = &samples[i];
        assert(all[i as int] == sample@);
        let previous = match calling.get(sample.entity_id.as_str()) {
            Some(calls) => *calls,
            None => false,
        };
        let now = calls_for_heat(sample.current, bands[i], previous);
        calling.insert(sample.entity_id.clone(), now);
        verdicts.push(Verdict { now, previous });
        proof {
            assert(all.take(i + 1).drop_last() =~= all.take(i as int));
            assert(all.take(i + 1).last() == sample@);
        }
        i += 1;
    }
    assert(all.take(i as int) =~= all);
    verdicts
}

/// The pattern of a pump: a name without a dot is the name of a switch.
pub open spec fn pump_pattern(pump: Seq<char>) -> Seq<char> {
    if pump.contains('.') {
        pump
    } else {
        "switch."@ + pump
    }
}

/// The key under which switching a pump on, or off, is throttled.
pub open spec fn pump_key(entity_id: Seq<char>, want_on: bool) -> Seq<char> {
    entity_id + if want_on {
        ":true"@
    } else {
        ":false"@
    }
}

/// What is done about a pump.
#[derive(Debug)]
pub enum PumpOutcome {
    /// The pattern selects no entity, so nothing is done.
    NoMatch { pattern: String },
    /// The pattern selects several entities, so nothing is done.
    Ambiguous { pattern: String, ids: Vec<String> },
    /// The pump is not available, so nothing is done.
    Unavailable { entity_id: String, state: String },
    /// The pump is known, and the command to switch it passes or not.
    Decided { entity_id: String, state: String, gate: Gate },
}

/// What is done about a pump.
pub enum PumpStep {
    NoMatch(Seq<char>),
    Ambiguous(Seq<char>, Seq<Seq<char>>),
    Unavailable(Seq<char>, Seq<char>),
    Decided(Seq<char>, Seq<char>, Gate),
}

impl View for PumpOutcome {
    type V = PumpStep;

    open spec fn view(&self) -> PumpStep {
        match self {
            PumpOutcome::NoMatch { pattern } => PumpStep::NoMatch(pattern@),
            PumpOutcome::Ambiguous { pattern, ids } => PumpStep::Ambiguous(
                pattern@,
                string_views(ids@),
            ),
            PumpOutcome::Unavailable { entity_id, state } => PumpStep::Unavailable(
                entity_id@,
                state@,
            ),
            PumpOutcome::Decided { entity_id, state, gate } => PumpStep::Decided(
                entity_id@,
                state@,
                *gate,
            ),
        }
    }
}

/// What is done about a pump, and what the throttle remembers then. A pump is switched only
/// where its pattern selects exactly one entity, which is available and not as wanted.
pub open spec fn pump_step(
    entities: Seq<Entity>,
    pump: Seq<char>,
    want_on: bool,
    attempts: Attempts,
    now: u128,
) -> (PumpStep, Attempts) {
    let pattern = pump_pattern(pump);
    match picked(entities, pattern) {
        Picked::NoMatch => (PumpStep::NoMatch(pattern), attempts),
        Picked::Ambiguous(ids) => (PumpStep::Ambiguous(pattern, ids), attempts),
        Picked::Unavailable(e) => (PumpStep::Unavailable(e.entity_id@, e.state@), attempts),
        Picked::Ready(e) => {
            let settled = (e.state@ == "on"@) == want_on;
            let (gate, after) = gated(attempts, pump_key(e.entity_id@, want_on), settled, now);
            (PumpStep::Decided(e.entity_id@, e.state@, gate), after)
        },
    }
}

/// Decides, at the moment `now`, about the pump of a zone that is wanted on or off.
pub fn apply_pump(
    states: &States,
    pump: &str,
    want_on: bool,
    throttle: &mut WriteThrottle,
    now: u128,
) -> (outcome: PumpOutcome)
    ensures
        (outcome@, final(throttle)@) == pump_step(states@, pump@, want_on, old(throttle)@, now),
        final(throttle).origin() == old(throttle).origin(),
        final(throttle).latest() == old(throttle).latest(),
{
    let pattern = if contains_char(pump, '.') {
        pump.to_string()
    } else {
        concat("switch.", pump)
    };
    match pick(states, pattern.as_str()) {
        Pick::NoMatch => PumpOutcome::NoMatch { pattern },
        Pick::Ambiguous(ids) => PumpOutcome::Ambiguous { pattern, ids },
        Pick::Unavailable(entity) => PumpOutcome::Unavailable {
            entity_id: entity.entity_id.clone(),
            state: entity.state.clone(),
        },
        Pick::Ready(entity) => {
            let is_on = same(entity.state.as_str(), "on");
            let key = concat(
                entity.entity_id.as_str(),
                if want_on {
                    ":true"
                } else {
                    ":false"
                },
            );
            let gate = gate(throttle, key.as_str(), is_on == want_on, now);
            PumpOutcome::Decided {
                entity_id: entity.entity_id.clone(),
                state: entity.state.clone(),
                gate,
            }
        },
    }
}

/// Where a pass over the zones stands.
pub struct Pass {
    /// The zones that are done.
    pub done: nat,
    /// Whether any of them calls for heat.
    pub demand: bool,
}

/// What came of a zone.
#[derive(Debug)]
pub struct ZoneReport {
    /// The decisions about its thermostats, in the order of the samples.
    pub verdicts: Vec<Verdict>,
    /// Whether its pump is wanted on.
    pub want_on: bool,
    /// What is done about its pump.
    pub outcome: PumpOutcome,
}

/// A pass over the zones, in the order of their pumps.
#[derive(Debug)]
pub struct ZonePass {
    done: usize,
    demand: bool,
}

impl View for ZonePass {
    type V = Pass;

    closed spec fn view(&self) -> Pass {
        Pass { done: self.done as nat, demand: self.demand }
    }
}

/// The thermostat patterns of the zone at a place of the pass.
pub open spec fn zone_patterns(config: Config, i: int) -> Seq<Seq<char>> {
    string_views(config.zones@[config.zones.keys()[i]]@)
}

impl ZonePass {
    /// A pass that has all zones before it.
    pub fn new() -> (pass: Self)
        ensures
            pass@ == (Pass { done: 0, demand: false }),
    {
        ZonePass { done: 0, demand: false }
    }

    /// Whether a zone that was passed calls for heat.
    pub fn demand(&self) -> (demand: bool)
        ensures
            demand == self@.demand,
    {
        self.demand
    }

    /// The pump of the zone that is next, in ascending order of the pumps.
    pub fn pump<'a>(&self, config: &'a Config) -> (pump: Option<&'a String>)
        ensures
            config.zones.walks_contents(),
            match pump {
                Some(p) => self@.done < config.zones.keys().len() && p@
                    == config.zones.keys()[self@.done as int],
                None => self@.done >= config.zones.keys().len(),
            },
    {
        if self.done < config.zones.len() {
            Some(config.zones.key_at(self.done))
        } else {
            None
        }
    }

    /// Looks at the thermostats of the zone that is next.
    pub fn survey(&self, config: &Config, states: &States) -> (survey: Option<Survey>)
        ensures
            match survey {
                Some(s) => self@.done < config.zones.keys().len() && s.is_of(
                    states@,
                    zone_patterns(*config, self@.done as int),
                ),
                None => self@.done >= config.zones.keys().len(),
            },
    {
        if self.done < config.zones.len() {
            Some(survey_zone(states, config.zones.value_at(self.done)))
        } else {
            None
        }
    }

    /// Judges the thermostats of the zone that is next, decides about its pump at the moment
    /// `now`, and goes on to the zone behind it.
    pub fn settle_at(
        &mut self,
        config: &Config,
        states: &States,
        survey: &Survey,
        bands: &Vec<Band>,
        calling: &mut Table<bool>,
        throttle: &mut WriteThrottle,
        now: u128,
    ) -> (report: ZoneReport)
        requires
            old(self)@.done < config.zones.keys().len(),
            bands@.len() == survey.samples@.len(),
        ensures
            settled(
                (old(self)@, old(calling)@, old(throttle)@),
                (final(self)@, final(calling)@, final(throttle)@),
                report,
                config.zones.keys()[old(self)@.done as int],
                states@,
                sample_views(survey.samples@),
                bands@,
                now,
            ),
            final(throttle).origin() == old(throttle).origin(),
            final(throttle).latest() == old(throttle).latest(),
    {
        let ghost samples = sample_views(survey.samples@);
        let ghost before = calling@;
        let verdicts = judge(&survey.samples, bands, calling);
        let mut want_on: bool = false;
        let mut i: usize = 0;
        while i < verdicts.len()
            invariant
                i <= verdicts.len(),
                verdicts@.len() == samples.len(),
                forall|j: int|
                    0 <= j < verdicts@.len() ==> #[trigger] verdicts@[j] == verdict_at(
                        before,
                        samples,
                        bands@,
                        j,
                    ),
                want_on ==> zone_calls(before, samples, bands@),
                !want_on ==> forall|j: int|
                    0 <= j < i ==> !(#[trigger] verdict_at(before, samples, bands@, j)).now,
            decreases verdicts.len() - i,
        {
            if verdicts[i].now {
                assert(verdict_at(before, samples, bands@, i as int).now);
                want_on = true;
            }
            i += 1;
        }
        let outcome = apply_pump(
            states,
            config.zones.key_at(self.done).as_str(),
            want_on,
            throttle,
            now,
        );
        self.done = self.done + 1;
        self.demand = self.demand || want_on;
        ZoneReport { verdicts, want_on, outcome }
    }

    /// Judges the thermostats of the zone that is next, decides about its pump at the moment that
    /// the clock of the throttle gives, and goes on to the zone behind it.
    pub fn settle(
        &mut self,
        config: &Config,
        states: &States,
        survey: &Survey,
        bands: &Vec<Band>,
        calling: &mut Table<bool>,
        throttle: &mut WriteThrottle,
    ) -> (report: ZoneReport)
        requires
            old(self)@.done < config.zones.keys().len(),
            bands@.len() == survey.samples@.len(),
        ensures
            exists|now: u128|
                #[trigger] settled(
                    (old(self)@, old(calling)@, old(throttle)@),
                    (final(self)@, final(calling)@, final(throttle)@),
                    report,
                    config.zones.keys()[old(self)@.done as int],
                    states@,
                    sample_views(survey.samples@),
                    bands@,
                    now,
                ) && old(throttle).clock_gives(now) && final(throttle).latest() == now,
            final(throttle).origin() == old(throttle).origin(),
    {
        let now = throttle.tick();
        self.settle_at(config, states, survey, bands, calling, throttle, now)
    }
}

/// What settling a zone does: the thermostats are judged, the pump is wanted on exactly when one
/// of them calls for heat, and the pass goes on with that added to the demand.
pub open spec fn settled(
    before: (Pass, Map<Seq<char>, bool>, Attempts),
    after: (Pass, Map<Seq<char>, bool>, Attempts),
    report: ZoneReport,
    pump: Seq<char>,
    entities: Seq<Entity>,
    samples: Seq<Measured>,
    bands: Seq<Band>,
    now: u128,
) -> bool {
    &&& report.want_on == zone_calls(before.1, samples, bands)
    &&& report.verdicts@.len() == samples.len()
    &&& forall|i: int|
        0 <= i < samples.len() ==> #[trigger] report.verdicts@[i] == verdict_at(
            before.1,
            samples,
            bands,
            i,
        )
    &&& (report.outcome@, after.2) == pump_step(entities, pump, report.want_on, before.2, now)
    &&& after.1 == calling_after(before.1, samples, bands)
    &&& after.0 == (Pass {
        done: before.0.done + 1,
        demand: before.0.demand || report.want_on,
    })
}

/// Below the margin a thermostat calls for heat, above it does not, and in between it holds what
/// it did before, so that it does not chatter at the setpoint.
pub proof fn law_margin(current: Degrees, band: Band, previous: bool)
    ensures
        current.below(band.low) ==> heat_wanted(current, band, previous),
        band.high.below(current) && !current.below(band.low) ==> !heat_wanted(
            current,
            band,
            previous,
        ),
        !current.below(band.low) && !band.high.below(current) ==> heat_wanted(
            current,
            band,
            previous,
        ) == previous,
{
}

/// Judging one reading twice gives one decision.
pub proof fn law_decision_is_stable(current: Degrees, band: Band, previous: bool)
    ensures
        heat_wanted(current, band, heat_wanted(current, band, previous)) == heat_wanted(
            current,
            band,
            previous,
        ),
{
}

/// A colder reading never calls for less heat.
pub proof fn law_colder_calls_no_less(
    colder: Degrees,
    warmer: Degrees,
    band: Band,
    previous: bool,
)
    requires
        colder.at_most(warmer),
        heat_wanted(warmer, band, previous),
    ensures
        heat_wanted(colder, band, previous),
{
}

/// The samples of one id agree, as those of one poll do.
pub open spec fn readings_agree(samples: Seq<Measured>, bands: Seq<Band>) -> bool {
    forall|i: int, j: int|
        0 <= i < samples.len() && 0 <= j < samples.len() && (#[trigger] samples[i]).id == (
        #[trigger] samples[j]).id ==> samples[i].current == samples[j].current && bands[i]
            == bands[j]
}

/// What entities say about heat comes from entities among them.
proof fn lemma_measured_source(entities: Seq<Entity>, m: Measured)
    requires
        all_measured(entities).contains(m),
    ensures
        exists|e: Entity| #[trigger] entities.contains(e) && measured(e) == Some(m),
    decreases entities.len(),
{
    reveal(Seq::filter_map);
    if entities.len() > 0 {
        let fewer = entities.drop_last();
        let last = entities.last();
        assert(entities[entities.len() - 1] == last);
        assert(entities.contains(last));
        if measured(last) != Some(m) {
            let k = choose|k: int|
                0 <= k < all_measured(entities).len() && all_measured(entities)[k] == m;
            assert(all_measured(fewer)[k] == m);
            assert(all_measured(fewer).contains(m));
            lemma_measured_source(fewer, m);
            let e = choose|e: Entity| #[trigger] fewer.contains(e) && measured(e) == Some(m);
            let i = choose|i: int| 0 <= i < fewer.len() && fewer[i] == e;
            assert(entities[i] == e);
            assert(entities.contains(e));
        }
    } else {
        assert(all_measured(entities).len() == 0);
    }
}

/// What a zone's thermostats say comes from the entities of the poll.
proof fn lemma_zone_source(entities: Seq<Entity>, patterns: Seq<Seq<char>>, m: Measured)
    requires
        ids_ascending(entities),
        zone_measured(entities, patterns).contains(m),
    ensures
        exists|e: Entity| #[trigger] entities.contains(e) && measured(e) == Some(m),
    decreases patterns.len(),
{
    if patterns.len() > 0 {
        let before = zone_measured(entities, patterns.drop_last());
        let hits = selected(entities, patterns.last());
        let whole = zone_measured(entities, patterns);
        let k = choose|k: int| 0 <= k < whole.len() && whole[k] == m;
        if k < before.len() {
            assert(before[k] == m);
            lemma_zone_source(entities, patterns.drop_last(), m);
        } else {
            assert(all_measured(hits)[k - before.len()] == m);
            lemma_measured_source(hits, m);
            let e = choose|e: Entity| #[trigger] hits.contains(e) && measured(e) == Some(m);
            law_selection_is_exact_and_ordered(entities, patterns.last());
            assert(entities.contains(e));
        }
    }
}

/// What an available entity says is among what the entities say.
proof fn lemma_measured_kept(entities: Seq<Entity>, e: Entity, m: Measured)
    requires
        entities.contains(e),
        measured(e) == Some(m),
    ensures
        all_measured(entities).contains(m),
    decreases entities.len(),
{
    reveal(Seq::filter_map);
    let whole = all_measured(entities);
    let fewer = entities.drop_last();
    let i = choose|i: int| 0 <= i < entities.len() && entities[i] == e;
    if i == entities.len() - 1 {
        assert(whole[whole.len() - 1] == m);
    } else {
        assert(fewer[i] == e);
        lemma_measured_kept(fewer, e, m);
        let k = choose|k: int| 0 <= k < all_measured(fewer).len() && all_measured(fewer)[k] == m;
        assert(whole[k] == m);
    }
}

/// A zone hears every thermostat that one of its patterns selects and that can be read, and no
/// other.
pub proof fn law_zone_hears_all_it_selects(
    entities: Seq<Entity>,
    patterns: Seq<Seq<char>>,
    m: Measured,
)
    requires
        ids_ascending(entities),
    ensures
        zone_measured(entities, patterns).contains(m) <==> exists|e: Entity, i: int|
            #![trigger entities.contains(e), patterns[i]]
            entities.contains(e) && measured(e) == Some(m) && 0 <= i < patterns.len() && selects(
                patterns[i],
                e,
            ),
    decreases patterns.len(),
{
    let whole = zone_measured(entities, patterns);
    if patterns.len() > 0 {
        let fewer = patterns.drop_last();
        let before = zone_measured(entities, fewer);
        let last = patterns.len() - 1;
        let hits = selected(entities, patterns[last]);
        law_zone_hears_all_it_selects(entities, fewer, m);
        law_selection_is_exact_and_ordered(entities, patterns[last]);
        if whole.contains(m) {
            let k = choose|k: int| 0 <= k < whole.len() && whole[k] == m;
            if k < before.len() {
                assert(before[k] == m);
                assert(before.contains(m));
                let (e, i) = choose|e: Entity, i: int|
                    #![trigger entities.contains(e), fewer[i]]
                    entities.contains(e) && measured(e) == Some(m) && 0 <= i < fewer.len()
                        && selects(fewer[i], e);
                assert(patterns[i] == fewer[i]);
                assert(entities.contains(e));
            } else {
                assert(all_measured(hits)[k - before.len()] == m);
                lemma_measured_source(hits, m);
                let e = choose|e: Entity| #[trigger] hits.contains(e) && measured(e) == Some(m);
                assert(entities.contains(e) && selects(patterns[last], e));
            }
        }
        if exists|e: Entity, i: int|
            #![trigger entities.contains(e), patterns[i]]
            entities.contains(e) && measured(e) == Some(m) && 0 <= i < patterns.len() && selects(
                patterns[i],
                e,
            ) {
            let (e, i) = choose|e: Entity, i: int|
                #![trigger entities.contains(e), patterns[i]]
                entities.contains(e) && measured(e) == Some(m) && 0 <= i < patterns.len()
                    && selects(patterns[i], e);
            if i < last {
                assert(fewer[i] == patterns[i]);
                assert(before.contains(m));
                let k = choose|k: int| 0 <= k < before.len() && before[k] == m;
                assert(whole[k] == m);
            } else {
                assert(hits.contains(e));
                lemma_measured_kept(hits, e, m);
                let k = choose|k: int|
                    0 <= k < all_measured(hits).len() && all_measured(hits)[k] == m;
                assert(whole[before.len() + k] == m);
            }
        }
    } else {
        assert(whole.len() == 0);
    }
}

/// Within one poll a thermostat says one thing, also where several zones, or several patterns of
/// one, select it.
pub proof fn law_one_poll_agrees(
    entities: Seq<Entity>,
    patterns: Seq<Seq<char>>,
    others: Seq<Seq<char>>,
    m: Measured,
    n: Measured,
)
    requires
        ids_ascending(entities),
        zone_measured(entities, patterns).contains(m),
        zone_measured(entities, others).contains(n),
        m.id == n.id,
    ensures
        m == n,
{
    lemma_zone_source(entities, patterns, m);
    lemma_zone_source(entities, others, n);
    let a = choose|e: Entity| #[trigger] entities.contains(e) && measured(e) == Some(m);
    let b = choose|e: Entity| #[trigger] entities.contains(e) && measured(e) == Some(n);
    let x = choose|x: int| 0 <= x < entities.len() && entities[x] == a;
    let y = choose|y: int| 0 <= y < entities.len() && entities[y] == b;
    lemma_precedes_irreflexive(a.entity_id@);
    if x < y {
        assert(precedes(entities[x].entity_id@, entities[y].entity_id@));
    } else if y < x {
        assert(precedes(entities[y].entity_id@, entities[x].entity_id@));
    }
}

/// Each thermostat's decision comes from its own reading and its own decision before. The
/// decisions about all others stay as they were.
pub proof fn law_thermostats_are_independent(
    calling: Map<Seq<char>, bool>,
    samples: Seq<Measured>,
    bands: Seq<Band>,
)
    requires
        samples.len() <= bands.len(),
        readings_agree(samples, bands),
    ensures
        forall|i: int|
            0 <= i < samples.len() ==> calling_after(calling, samples, bands).contains_key(
                (#[trigger] samples[i]).id,
            ) && calling_after(calling, samples, bands)[samples[i].id] == heat_wanted(
                samples[i].current,
                bands[i],
                decided(calling, samples[i].id),
            ),
        forall|id: Seq<char>|
            (forall|i: int| 0 <= i < samples.len() ==> (#[trigger] samples[i]).id != id) ==> (
            #[trigger] calling_after(calling, samples, bands).contains_key(id)
                == calling.contains_key(id)) && decided(calling_after(calling, samples, bands), id)
                == decided(calling, id),
    decreases samples.len(),
{
    if samples.len() > 0 {
        let fewer = samples.drop_last();
        let last = samples.last();
        let n = samples.len() - 1;
        assert forall|i: int, j: int|
            0 <= i < fewer.len() && 0 <= j < fewer.len() && (#[trigger] fewer[i]).id == (
            #[trigger] fewer[j]).id implies fewer[i].current == fewer[j].current && bands[i]
            == bands[j] by {
            assert(fewer[i] == samples[i] && fewer[j] == samples[j]);
        }
        law_thermostats_are_independent(calling, fewer, bands);
        let earlier = calling_after(calling, fewer, bands);
        let after = calling_after(calling, samples, bands);
        if exists|i: int| 0 <= i < fewer.len() && (#[trigger] fewer[i]).id == last.id {
            let i = choose|i: int| 0 <= i < fewer.len() && (#[trigger] fewer[i]).id == last.id;
            assert(samples[i] == fewer[i] && samples[n] == last);
            law_decision_is_stable(last.current, bands[n], decided(calling, last.id));
        }
        assert(after[last.id] == heat_wanted(
            last.current,
            bands[n],
            decided(calling, last.id),
        ));
        assert forall|i: int| 0 <= i < samples.len() implies after.contains_key(
            (#[trigger] samples[i]).id,
        ) && after[samples[i].id] == heat_wanted(
            samples[i].current,
            bands[i],
            decided(calling, samples[i].id),
        ) by {
            if i < n {
                assert(fewer[i] == samples[i]);
                if samples[i].id == last.id {
                    assert(samples[n] == last);
                }
            }
        }
        assert forall|id: Seq<char>|
            (forall|i: int| 0 <= i < samples.len() ==> (#[trigger] samples[i]).id != id) implies (
        #[trigger] after.contains_key(id) == calling.contains_key(id)) && decided(after, id)
            == decided(calling, id) by {
            assert forall|i: int| 0 <= i < fewer.len() implies (#[trigger] fewer[i]).id != id by {
                assert(fewer[i] == samples[i]);
            }
            assert(samples[n].id != id);
            assert(earlier.contains_key(id) == calling.contains_key(id));
        }
    }
}

/// A zone calls for heat exactly when one of its thermostats does, by its own reading and its
/// own decision before.
pub proof fn law_zone_follows_its_thermostats(
    calling: Map<Seq<char>, bool>,
    samples: Seq<Measured>,
    bands: Seq<Band>,
)
    requires
        samples.len() <= bands.len(),
        readings_agree(samples, bands),
    ensures
        zone_calls(calling, samples, bands) == exists|i: int|
            0 <= i < samples.len() && heat_wanted(
                (#[trigger] samples[i]).current,
                bands[i],
                decided(calling, samples[i].id),
            ),
{
    assert forall|i: int| 0 <= i < samples.len() implies (#[trigger] verdict_at(
        calling,
        samples,
        bands,
        i,
    )).now == heat_wanted(samples[i].current, bands[i], decided(calling, samples[i].id)) by {
        let fewer = samples.take(i);
        assert forall|a: int, b: int|
            0 <= a < fewer.len() && 0 <= b < fewer.len() && (#[trigger] fewer[a]).id == (
            #[trigger] fewer[b]).id implies fewer[a].current == fewer[b].current && bands[a]
            == bands[b] by {
            assert(fewer[a] == samples[a] && fewer[b] == samples[b]);
        }
        law_thermostats_are_independent(calling, fewer, bands);
        if exists|k: int| 0 <= k < fewer.len() && (#[trigger] fewer[k]).id == samples[i].id {
            let k = choose|k: int| 0 <= k < fewer.len() && (#[trigger] fewer[k]).id == samples[i].id;
            assert(fewer[k] == samples[k]);
            law_decision_is_stable(samples[i].current, bands[i], decided(calling, samples[i].id));
        }
    }
    if zone_calls(calling, samples, bands) {
        let i = choose|i: int|
            0 <= i < samples.len() && (#[trigger] verdict_at(calling, samples, bands, i)).now;
        assert(heat_wanted(samples[i].current, bands[i], decided(calling, samples[i].id)));
    }
    if exists|i: int|
        0 <= i < samples.len() && heat_wanted(
            (#[trigger] samples[i]).current,
            bands[i],
            decided(calling, samples[i].id),
        ) {
        let i = choose|i: int|
            0 <= i < samples.len() && heat_wanted(
                (#[trigger] samples[i]).current,
                bands[i],
                decided(calling, samples[i].id),
            );
        assert(verdict_at(calling, samples, bands, i).now);
    }
}

/// A pump is switched only where its pattern selects exactly one entity, which is available and
/// not as wanted.
pub proof fn law_only_the_one_pump_is_switched(
    entities: Seq<Entity>,
    pump: Seq<char>,
    want_on: bool,
    attempts: Attempts,
    now: u128,
)
    ensures
        match pump_step(entities, pump, want_on, attempts, now).0 {
            PumpStep::Decided(id, state, gate) => {
                &&& selected(entities, pump_pattern(pump)).len() == 1
                &&& selected(entities, pump_pattern(pump))[0].entity_id@ == id
                &&& selected(entities, pump_pattern(pump))[0].available()
                &&& gate is Send ==> (state == "on"@) != want_on
            },
            _ => {
                &&& pump_step(entities, pump, want_on, attempts, now).1 == attempts
                &&& selected(entities, pump_pattern(pump)).len() != 1 || !selected(
                    entities,
                    pump_pattern(pump),
                )[0].available()
            },
        },
{
}

/// A pass over the zones finds demand exactly when some zone calls for heat, and goes through
/// one zone after the other.
pub proof fn law_demand_is_that_of_any_zone(
    points: Seq<(Pass, Map<Seq<char>, bool>, Attempts)>,
    reports: Seq<ZoneReport>,
    pumps: Seq<Seq<char>>,
    entities: Seq<Entity>,
    samples: Seq<Seq<Measured>>,
    bands: Seq<Seq<Band>>,
    moments: Seq<u128>,
)
    requires
        points.len() == reports.len() + 1,
        points[0].0 == (Pass { done: 0, demand: false }),
        forall|i: int|
            0 <= i < reports.len() ==> settled(
                points[i],
                points[i + 1],
                #[trigger] reports[i],
                pumps[i],
                entities,
                samples[i],
                bands[i],
                moments[i],
            ),
    ensures
        points.last().0.demand == exists|i: int|
            0 <= i < reports.len() && zone_calls(points[i].1, #[trigger] samples[i], bands[i]),
        points.last().0.done == reports.len(),
{
    let passes = points.map_values(|point: (Pass, Map<Seq<char>, bool>, Attempts)| point.0);
    let calls = reports.map_values(|report: ZoneReport| report.want_on);
    assert forall|i: int| 0 <= i < calls.len() implies #[trigger] passes[i + 1] == (Pass {
        done: passes[i].done + 1,
        demand: passes[i].demand || calls[i],
    }) by {
        assert(calls[i] == reports[i].want_on);
    }
    lemma_demand_adds_up(passes, calls);
    assert forall|i: int| 0 <= i < reports.len() implies calls[i] == zone_calls(
        points[i].1,
        #[trigger] samples[i],
        bands[i],
    ) by {
        assert(calls[i] == reports[i].want_on);
    }
    if exists|i: int| 0 <= i < calls.len() && #[trigger] calls[i] {
        let i = choose|i: int| 0 <= i < calls.len() && #[trigger] calls[i];
        assert(zone_calls(points[i].1, samples[i], bands[i]));
    }
}

/// Where each step adds what it found to the demand, the demand at the end is that of any step.
proof fn lemma_demand_adds_up(passes: Seq<Pass>, calls: Seq<bool>)
    requires
        passes.len() == calls.len() + 1,
        passes[0] == (Pass { done: 0, demand: false }),
        forall|i: int|
            0 <= i < calls.len() ==> #[trigger] passes[i + 1] == (Pass {
                done: passes[i].done + 1,
                demand: passes[i].demand || calls[i],
            }),
    ensures
        passes.last().demand == exists|i: int| 0 <= i < calls.len() && #[trigger] calls[i],
        passes.last().done == calls.len(),
    decreases calls.len(),
{
    if calls.len() > 0 {
        let n = calls.len() - 1;
        let fewer = calls.drop_last();
        let earlier = passes.drop_last();
        assert forall|i: int| 0 <= i < fewer.len() implies #[trigger] earlier[i + 1] == (Pass {
            done: earlier[i].done + 1,
            demand: earlier[i].demand || fewer[i],
        }) by {
            assert(passes[i + 1] == earlier[i + 1]);
        }
        lemma_demand_adds_up(earlier, fewer);
        assert(passes[n + 1] == (Pass {
            done: passes[n].done + 1,
            demand: passes[n].demand || calls[n],
        }));
        if exists|i: int| 0 <= i < fewer.len() && #[trigger] fewer[i] {
            let i = choose|i: int| 0 <= i < fewer.len() && #[trigger] fewer[i];
            assert(calls[i]);
        }
        if exists|i: int| 0 <= i < calls.len() && #[trigger] calls[i] {
            let i = choose|i: int| 0 <= i < calls.len() && #[trigger] calls[i];
            if i < fewer.len() {
                assert(fewer[i]);
            }
        }
    }
}

/// Whether a thermostat calls for heat by what it says and by its decision before the poll.
/// `margin` gives the margin around a setpoint.
pub open spec fn calls_by_itself(
    calling: Map<Seq<char>, bool>,
    margin: spec_fn(Degrees) -> Band,
    m: Measured,
) -> bool {
    heat_wanted(m.current, margin(m.setpoint), decided(calling, m.id))
}

/// What the thermostats of the zone at a place of the pass say.
pub open spec fn heard(config: Config, entities: Seq<Entity>, zone: int) -> Seq<Measured> {
    zone_measured(entities, zone_patterns(config, zone))
}

/// The first zones of a pass were settled one after the other, each on what its thermostats say
/// and on the margins around their setpoints.
pub open spec fn passed_zones(
    config: Config,
    entities: Seq<Entity>,
    margin: spec_fn(Degrees) -> Band,
    points: Seq<(Pass, Map<Seq<char>, bool>, Attempts)>,
    reports: Seq<ZoneReport>,
    moments: Seq<u128>,
) -> bool {
    &&& points.len() == reports.len() + 1
    &&& points[0].0 == (Pass { done: 0, demand: false })
    &&& forall|z: int|
        0 <= z < reports.len() ==> settled(
            points[z],
            points[z + 1],
            #[trigger] reports[z],
            config.zones.keys()[z],
            entities,
            heard(config, entities, z),
            heard(config, entities, z).map_values(|m: Measured| margin(m.setpoint)),
            moments[z],
        )
}

/// What is remembered after the zones before `n`: of each thermostat that they heard, the
/// decision by itself, and of all others what was remembered before.
spec fn remembered(
    config: Config,
    entities: Seq<Entity>,
    margin: spec_fn(Degrees) -> Band,
    before: Map<Seq<char>, bool>,
    after: Map<Seq<char>, bool>,
    n: int,
) -> bool {
    &&& forall|z: int, m: Measured|
        0 <= z < n && #[trigger] heard(config, entities, z).contains(m) ==> after.contains_key(m.id)
            && after[m.id] == calls_by_itself(before, margin, m)
    &&& forall|id: Seq<char>|
        (forall|z: int, m: Measured|
            0 <= z < n && #[trigger] heard(config, entities, z).contains(m) ==> m.id != id) ==> (
        #[trigger] after.contains_key(id) == before.contains_key(id)) && decided(after, id)
            == decided(before, id)
}

/// A decision that an earlier zone of the poll made about a thermostat changes nothing for a
/// later one.
proof fn lemma_decision_holds_within_poll(
    config: Config,
    entities: Seq<Entity>,
    margin: spec_fn(Degrees) -> Band,
    before: Map<Seq<char>, bool>,
    midway: Map<Seq<char>, bool>,
    n: int,
    m: Measured,
)
    requires
        ids_ascending(entities),
        remembered(config, entities, margin, before, midway, n),
        heard(config, entities, n).contains(m),
    ensures
        calls_by_itself(midway, margin, m) == calls_by_itself(before, margin, m),
{
    if exists|z: int, o: Measured|
        0 <= z < n && #[trigger] heard(config, entities, z).contains(o) && o.id == m.id {
        let (z, o) = choose|z: int, o: Measured|
            0 <= z < n && #[trigger] heard(config, entities, z).contains(o) && o.id == m.id;
        law_one_poll_agrees(
            entities,
            zone_patterns(config, z),
            zone_patterns(config, n),
            o,
            m,
        );
        law_decision_is_stable(m.current, margin(m.setpoint), decided(before, m.id));
    } else {
        assert(midway.contains_key(m.id) == before.contains_key(m.id));
    }
}

/// The readings of one zone agree, with the margins around their setpoints.
proof fn lemma_heard_agree(
    config: Config,
    entities: Seq<Entity>,
    margin: spec_fn(Degrees) -> Band,
    zone: int,
)
    requires
        ids_ascending(entities),
    ensures
        readings_agree(
            heard(config, entities, zone),
            heard(config, entities, zone).map_values(|m: Measured| margin(m.setpoint)),
        ),
{
    let said = heard(config, entities, zone);
    let bands = said.map_values(|m: Measured| margin(m.setpoint));
    let patterns = zone_patterns(config, zone);
    assert forall|i: int, j: int|
        0 <= i < said.len() && 0 <= j < said.len() && (#[trigger] said[i]).id == (
        #[trigger] said[j]).id implies said[i].current == said[j].current && bands[i]
        == bands[j] by {
        assert(said.contains(said[i]) && said.contains(said[j]));
        law_one_poll_agrees(entities, patterns, patterns, said[i], said[j]);
    }
}

/// Settling one more zone keeps what is remembered.
proof fn lemma_remembered_step(
    config: Config,
    entities: Seq<Entity>,
    margin: spec_fn(Degrees) -> Band,
    before: Map<Seq<char>, bool>,
    midway: Map<Seq<char>, bool>,
    n: int,
)
    requires
        ids_ascending(entities),
        0 <= n,
        remembered(config, entities, margin, before, midway, n),
    ensures
        remembered(
            config,
            entities,
            margin,
            before,
            calling_after(
                midway,
                heard(config, entities, n),
                heard(config, entities, n).map_values(|m: Measured| margin(m.setpoint)),
            ),
            n + 1,
        ),
{
    let said = heard(config, entities, n);
    let bands = said.map_values(|m: Measured| margin(m.setpoint));
    let after = calling_after(midway, said, bands);
    lemma_heard_agree(config, entities, margin, n);
    law_thermostats_are_independent(midway, said, bands);
    assert forall|m: Measured| #[trigger] said.contains(m) implies after.contains_key(m.id)
        && after[m.id] == calls_by_itself(before, margin, m) by {
        let k = choose|k: int| 0 <= k < said.len() && said[k] == m;
        assert(after.contains_key(said[k].id));
        lemma_decision_holds_within_poll(config, entities, margin, before, midway, n, m);
    }
    assert forall|z: int, m: Measured|
        0 <= z < n + 1 && #[trigger] heard(config, entities, z).contains(
            m,
        ) implies after.contains_key(m.id) && after[m.id] == calls_by_itself(
        before,
        margin,
        m,
    ) by {
        if z == n {
            assert(said.contains(m));
        } else if exists|k: int| 0 <= k < said.len() && (#[trigger] said[k]).id == m.id {
            let k = choose|k: int| 0 <= k < said.len() && (#[trigger] said[k]).id == m.id;
            assert(said.contains(said[k]));
            law_one_poll_agrees(
                entities,
                zone_patterns(config, n),
                zone_patterns(config, z),
                said[k],
                m,
            );
        } else {
            assert(after.contains_key(m.id) == midway.contains_key(m.id));
            assert(decided(after, m.id) == decided(midway, m.id));
        }
    }
    assert forall|id: Seq<char>|
        (forall|z: int, m: Measured|
            0 <= z < n + 1 && #[trigger] heard(config, entities, z).contains(m) ==> m.id
                != id) implies (#[trigger] after.contains_key(id) == before.contains_key(id))
        && decided(after, id) == decided(before, id) by {
        assert forall|k: int| 0 <= k < said.len() implies (#[trigger] said[k]).id != id by {
            assert(heard(config, entities, n).contains(said[k]));
        }
        assert(after.contains_key(id) == midway.contains_key(id));
        assert(midway.contains_key(id) == before.contains_key(id));
    }
}

/// What is remembered at each point of a pass.
proof fn lemma_remembered_at(
    config: Config,
    entities: Seq<Entity>,
    margin: spec_fn(Degrees) -> Band,
    points: Seq<(Pass, Map<Seq<char>, bool>, Attempts)>,
    reports: Seq<ZoneReport>,
    moments: Seq<u128>,
    n: int,
)
    requires
        ids_ascending(entities),
        passed_zones(config, entities, margin, points, reports, moments),
        0 <= n <= reports.len(),
    ensures
        remembered(config, entities, margin, points[0].1, points[n].1, n),
    decreases n,
{
    if n > 0 {
        let z = n - 1;
        lemma_remembered_at(config, entities, margin, points, reports, moments, z);
        lemma_remembered_step(config, entities, margin, points[0].1, points[z].1, z);
        assert(settled(
            points[z],
            points[z + 1],
            reports[z],
            config.zones.keys()[z],
            entities,
            heard(config, entities, z),
            heard(config, entities, z).map_values(|m: Measured| margin(m.setpoint)),
            moments[z],
        ));
    }
}

/// A zone calls for heat exactly when one of its thermostats does by itself.
proof fn lemma_zone_calls_by_itself(
    config: Config,
    entities: Seq<Entity>,
    margin: spec_fn(Degrees) -> Band,
    before: Map<Seq<char>, bool>,
    midway: Map<Seq<char>, bool>,
    n: int,
)
    requires
        ids_ascending(entities),
        remembered(config, entities, margin, before, midway, n),
    ensures
        zone_calls(
            midway,
            heard(config, entities, n),
            heard(config, entities, n).map_values(|m: Measured| margin(m.setpoint)),
        ) == exists|m: Measured| #[trigger]
            heard(config, entities, n).contains(m) && calls_by_itself(before, margin, m),
{
    let said = heard(config, entities, n);
    let bands = said.map_values(|m: Measured| margin(m.setpoint));
    lemma_heard_agree(config, entities, margin, n);
    law_zone_follows_its_thermostats(midway, said, bands);
    if zone_calls(midway, said, bands) {
        let i = choose|i: int|
            0 <= i < said.len() && heat_wanted(
                (#[trigger] said[i]).current,
                bands[i],
                decided(midway, said[i].id),
            );
        assert(said.contains(said[i]));
        lemma_decision_holds_within_poll(config, entities, margin, before, midway, n, said[i]);
    }
    if exists|m: Measured| #[trigger] said.contains(m) && calls_by_itself(before, margin, m) {
        let m = choose|m: Measured| #[trigger]
            said.contains(m) && calls_by_itself(before, margin, m);
        let i = choose|i: int| 0 <= i < said.len() && said[i] == m;
        lemma_decision_holds_within_poll(config, entities, margin, before, midway, n, m);
        assert(heat_wanted(said[i].current, bands[i], decided(midway, said[i].id)));
    }
}

/// The law of a whole poll. After a pass over all zones there is demand exactly when some
/// thermostat that some zone hears calls for heat, by what it says and by its decision before
/// the poll. Each pump is wanted on exactly when a thermostat of its zone does. That decision is
/// the one that is remembered of each thermostat, also where several zones select it, and of all
/// other thermostats what was remembered stays.
pub proof fn law_whole_poll(
    config: Config,
    entities: Seq<Entity>,
    margin: spec_fn(Degrees) -> Band,
    points: Seq<(Pass, Map<Seq<char>, bool>, Attempts)>,
    reports: Seq<ZoneReport>,
    moments: Seq<u128>,
)
    requires
        ids_ascending(entities),
        reports.len() == config.zones.keys().len(),
        passed_zones(config, entities, margin, points, reports, moments),
    ensures
        points.last().0.done == config.zones.keys().len(),
        points.last().0.demand == exists|z: int, m: Measured|
            0 <= z < config.zones.keys().len() && #[trigger] heard(config, entities, z).contains(m)
                && calls_by_itself(points[0].1, margin, m),
        forall|z: int|
            0 <= z < config.zones.keys().len() ==> (#[trigger] reports[z]).want_on
                == exists|m: Measured| #[trigger]
                heard(config, entities, z).contains(m) && calls_by_itself(points[0].1, margin, m),
        forall|z: int, m: Measured|
            0 <= z < config.zones.keys().len() && #[trigger] heard(config, entities, z).contains(m)
                ==> points.last().1.contains_key(m.id) && points.last().1[m.id] == calls_by_itself(
                points[0].1,
                margin,
                m,
            ),
        forall|id: Seq<char>|
            (forall|z: int, m: Measured|
                0 <= z < config.zones.keys().len() && #[trigger] heard(
                    config,
                    entities,
                    z,
                ).contains(m) ==> m.id != id) ==> (#[trigger] points.last().1.contains_key(id)
                == points[0].1.contains_key(id)) && decided(points.last().1, id) == decided(
                points[0].1,
                id,
            ),
{
    let n = reports.len() as int;
    let before = points[0].1;
    let samples = Seq::new(reports.len(), |z: int| heard(config, entities, z));
    let bands = Seq::new(
        reports.len(),
        |z: int| heard(config, entities, z).map_values(|m: Measured| margin(m.setpoint)),
    );
    assert forall|z: int| 0 <= z < reports.len() implies settled(
        points[z],
        points[z + 1],
        #[trigger] reports[z],
        config.zones.keys()[z],
        entities,
        samples[z],
        bands[z],
        moments[z],
    ) by {
        assert(samples[z] == heard(config, entities, z));
    }
    law_demand_is_that_of_any_zone(
        points,
        reports,
        config.zones.keys(),
        entities,
        samples,
        bands,
        moments,
    );
    lemma_remembered_at(config, entities, margin, points, reports, moments, n);
    assert forall|z: int| 0 <= z < n implies zone_calls(
        points[z].1,
        #[trigger] samples[z],
        bands[z],
    ) == exists|m: Measured| #[trigger]
        heard(config, entities, z).contains(m) && calls_by_itself(before, margin, m) by {
        lemma_remembered_at(config, entities, margin, points, reports, moments, z);
        lemma_zone_calls_by_itself(config, entities, margin, before, points[z].1, z);
    }
    assert forall|z: int| 0 <= z < n implies (#[trigger] reports[z]).want_on
        == exists|m: Measured| #[trigger]
        heard(config, entities, z).contains(m) && calls_by_itself(before, margin, m) by {
        assert(zone_calls(points[z].1, samples[z], bands[z]) == reports[z].want_on);
    }
    if points.last().0.demand {
        let z = choose|z: int|
            0 <= z < n && zone_calls(points[z].1, #[trigger] samples[z], bands[z]);
        let m = choose|m: Measured| #[trigger]
            heard(config, entities, z).contains(m) && calls_by_itself(before, margin, m);
        assert(heard(config, entities, z).contains(m));
    }
    if exists|z: int, m: Measured|
        0 <= z < n && #[trigger] heard(config, entities, z).contains(m) && calls_by_itself(
            before,
            margin,
            m,
        ) {
        let (z, m) = choose|z: int, m: Measured|
            0 <= z < n && #[trigger] heard(config, entities, z).contains(m) && calls_by_itself(
                before,
                margin,
                m,
            );
        assert(zone_calls(points[z].1, samples[z], bands[z]));
    }
}

/// Switching a pump on and switching it off are throttled apart.
pub proof fn law_on_and_off_have_their_own_keys(entity_id: Seq<char>)
    ensures
        pump_key(entity_id, true) != pump_key(entity_id, false),
{
    reveal_strlit(":true");
    reveal_strlit(":false");
    assert(pump_key(entity_id, true).len() != pump_key(entity_id, false).len());
}

/// An entity says its measured temperature and its setpoint: its state is neither `unavailable`
/// nor `unknown`, and its attributes hold the two as numbers of these bits.
pub open spec fn readable(e: Entity, current: u64, setpoint: u64) -> bool {
    &&& e.state@ != "unavailable"@
    &&& e.state@ != "unknown"@
    &&& member(contents(e.attributes), "current_temperature"@) == Some(Json::Number(current))
    &&& member(contents(e.attributes), "temperature"@) == Some(Json::Number(setpoint))
}

/// The survey of a zone holds a sample of every thermostat that one of its patterns finds and
/// that says its two temperatures, whatever else its state is.
pub proof fn law_readable_thermostat_is_sampled(
    survey: Survey,
    entities: Seq<Entity>,
    patterns: Seq<Seq<char>>,
    i: int,
    e: Entity,
    current: u64,
    setpoint: u64,
)
    requires
        ids_ascending(entities),
        survey.is_of(entities, patterns),
        0 <= i < patterns.len(),
        selected(entities, patterns[i]).contains(e),
        readable(e, current, setpoint),
    ensures
        exists|k: int|
            0 <= k < survey.samples@.len() && (#[trigger] survey.samples@[k]).entity_id@
                == e.entity_id@ && survey.samples@[k].current.bits == current
                && survey.samples@[k].setpoint.bits == setpoint,
{
    let m = Measured {
        id: e.entity_id@,
        current: Degrees { bits: current },
        setpoint: Degrees { bits: setpoint },
    };
    law_selection_is_exact_and_ordered(entities, patterns[i]);
    law_zone_hears_all_it_selects(entities, patterns, m);
    assert(entities.contains(e) && selects(patterns[i], e));
    let whole = zone_measured(entities, patterns);
    let k = choose|k: int| 0 <= k < whole.len() && whole[k] == m;
    assert(sample_views(survey.samples@)[k] == survey.samples@[k]@);
}

/// Every sample of a survey is that of a thermostat which one of the patterns finds and which
/// says the two temperatures of the sample.
pub proof fn law_sample_is_of_a_readable_thermostat(
    survey: Survey,
    entities: Seq<Entity>,
    patterns: Seq<Seq<char>>,
    k: int,
)
    requires
        ids_ascending(entities),
        survey.is_of(entities, patterns),
        0 <= k < survey.samples@.len(),
    ensures
        exists|e: Entity, i: int|
            0 <= i < patterns.len() && #[trigger] selected(entities, patterns[i]).contains(e)
                && readable(
                e,
                survey.samples@[k].current.bits,
                survey.samples@[k].setpoint.bits,
            ) && e.entity_id@ == survey.samples@[k].entity_id@,
{
    let m = survey.samples@[k]@;
    let whole = zone_measured(entities, patterns);
    assert(sample_views(survey.samples@)[k] == m);
    assert(whole[k] == m);
    assert(whole.contains(m));
    law_zone_hears_all_it_selects(entities, patterns, m);
    let (e, i) = choose|e: Entity, i: int|
        #![trigger entities.contains(e), patterns[i]]
        entities.contains(e) && measured(e) == Some(m) && 0 <= i < patterns.len() && selects(
            patterns[i],
            e,
        );
    law_selection_is_exact_and_ordered(entities, patterns[i]);
    assert(selected(entities, patterns[i]).contains(e));
    assert(m.current == Degrees { bits: m.current.bits });
    assert(readable(e, m.current.bits, m.setpoint.bits));
}

/// A survey takes the patterns in their order, and the entities of each in the order of their
/// ids: what it gives for two lists of patterns is what it gives for the one and then for the
/// other, and so for the entities that one pattern finds.
pub proof fn law_survey_keeps_the_order(
    entities: Seq<Entity>,
    front: Seq<Seq<char>>,
    back: Seq<Seq<char>>,
    pattern: Seq<char>,
    a: Seq<Entity>,
    b: Seq<Entity>,
)
    ensures
        zone_measured(entities, front + back) == zone_measured(entities, front) + zone_measured(
            entities,
            back,
        ),
        zone_silent(entities, front + back) == zone_silent(entities, front) + zone_silent(
            entities,
            back,
        ),
        zone_measured(entities, seq![pattern]) == all_measured(selected(entities, pattern)),
        selected(entities, pattern).len() > 0 ==> zone_silent(entities, seq![pattern])
            == all_silent(selected(entities, pattern)),
        selected(entities, pattern).len() == 0 ==> zone_silent(entities, seq![pattern]) == seq![
            Silence::NoMatch(pattern),
        ],
        all_measured(a + b) == all_measured(a) + all_measured(b),
        all_silent(a + b) == all_silent(a) + all_silent(b),
{
    lemma_zone_joins(entities, front, back);
    lemma_all_join(a, b);
    let one = seq![pattern];
    assert(one.drop_last() =~= Seq::<Seq<char>>::empty());
    assert(zone_measured(entities, one.drop_last()) =~= Seq::<Measured>::empty());
    assert(zone_silent(entities, one.drop_last()) =~= Seq::<Silence>::empty());
    assert(zone_measured(entities, one) =~= all_measured(selected(entities, pattern)));
    if selected(entities, pattern).len() > 0 {
        assert(zone_silent(entities, one) =~= all_silent(selected(entities, pattern)));
    } else {
        assert(zone_silent(entities, one) =~= seq![Silence::NoMatch(pattern)]);
    }
}

/// A survey of two lists of patterns.
proof fn lemma_zone_joins(entities: Seq<Entity>, front: Seq<Seq<char>>, back: Seq<Seq<char>>)
    ensures
        zone_measured(entities, front + back) == zone_measured(entities, front) + zone_measured(
            entities,
            back,
        ),
        zone_silent(entities, front + back) == zone_silent(entities, front) + zone_silent(
            entities,
            back,
        ),
    decreases back.len(),
{
    if back.len() == 0 {
        assert(front + back =~= front);
        assert(zone_measured(entities, front) + zone_measured(entities, back) =~= zone_measured(
            entities,
            front,
        ));
        assert(zone_silent(entities, front) + zone_silent(entities, back) =~= zone_silent(
            entities,
            front,
        ));
    } else {
        assert((front + back).drop_last() =~= front + back.drop_last());
        lemma_zone_joins(entities, front, back.drop_last());
        assert(zone_measured(entities, front + back) =~= zone_measured(entities, front)
            + zone_measured(entities, back));
        assert(zone_silent(entities, front + back) =~= zone_silent(entities, front) + zone_silent(
            entities,
            back,
        ));
    }
}

/// What two lists of entities say.
proof fn lemma_all_join(a: Seq<Entity>, b: Seq<Entity>)
    ensures
        all_measured(a + b) == all_measured(a) + all_measured(b),
        all_silent(a + b) == all_silent(a) + all_silent(b),
    decreases b.len(),
{
    reveal(Seq::filter_map);
    if b.len() == 0 {
        assert(a + b =~= a);
        assert(all_measured(a) + all_measured(b) =~= all_measured(a));
        assert(all_silent(a) + all_silent(b) =~= all_silent(a));
    } else {
        assert((a + b).drop_last() =~= a + b.drop_last());
        lemma_all_join(a, b.drop_last());
        assert(all_measured(a + b) =~= all_measured(a) + all_measured(b));
        assert(all_silent(a + b) =~= all_silent(a) + all_silent(b));
    }
}

/// What one entity comes to in a survey: a sample where it says its two temperatures, and
/// otherwise one fault, which says that it is out of reach or that a temperature is missing.
pub proof fn law_entity_is_sampled_or_at_fault(e: Entity, current: u64, setpoint: u64)
    ensures
        readable(e, current, setpoint) ==> all_measured(seq![e]) == seq![
            Measured {
                id: e.entity_id@,
                current: Degrees { bits: current },
                setpoint: Degrees { bits: setpoint },
            },
        ] && all_silent(seq![e]).len() == 0,
        e.state@ == "unavailable"@ || e.state@ == "unknown"@ ==> all_measured(seq![e]).len() == 0
            && all_silent(seq![e]) == seq![Silence::Unavailable(e.entity_id@, e.state@)],
        e.state@ != "unavailable"@ && e.state@ != "unknown"@ && !(member(
            contents(e.attributes),
            "current_temperature"@,
        ) matches Some(Json::Number(_)) && member(
            contents(e.attributes),
            "temperature"@,
        ) matches Some(Json::Number(_))) ==> all_measured(seq![e]).len() == 0 && all_silent(seq![e])
            == seq![Silence::Incomplete(e.entity_id@)],
{
    reveal(Seq::filter_map);
    let one = seq![e];
    assert(one.drop_last() =~= Seq::<Entity>::empty());
    assert(all_measured(one.drop_last()) =~= Seq::<Measured>::empty());
    assert(all_silent(one.drop_last()) =~= Seq::<Silence>::empty());
    assert(one.last() == e);
    if readable(e, current, setpoint) {
        assert(all_measured(one) =~= seq![
            Measured {
                id: e.entity_id@,
                current: Degrees { bits: current },
                setpoint: Degrees { bits: setpoint },
            },
        ]);
    }
    if silence(e) is Some {
        assert(all_silent(one) =~= seq![silence(e)->0]);
    }
}

/// A thermostat that was never heard of did not call for heat, and one that was did as is
/// remembered.
pub proof fn law_what_a_thermostat_did_before(calling: Map<Seq<char>, bool>, id: Seq<char>)
    ensures
        !calling.contains_key(id) ==> !decided(calling, id),
        calling.contains_key(id) ==> decided(calling, id) == calling[id],
{
}

/// The decisions about the thermostats of a zone, one by one. Where a thermostat comes up for
/// the first time, what it did before the zone is what counts as its decision before.
pub proof fn law_verdict_goes_by_the_decision_before(
    calling: Map<Seq<char>, bool>,
    samples: Seq<Measured>,
    bands: Seq<Band>,
    i: int,
)
    requires
        0 <= i < samples.len(),
        samples.len() <= bands.len(),
        forall|j: int| 0 <= j < i ==> (#[trigger] samples[j]).id != samples[i].id,
    ensures
        verdict_at(calling, samples, bands, i).previous == (calling.contains_key(samples[i].id)
            && calling[samples[i].id]),
        samples[i].current.below(bands[i].low) ==> verdict_at(calling, samples, bands, i).now,
        !samples[i].current.below(bands[i].low) && bands[i].high.below(samples[i].current)
            ==> !verdict_at(calling, samples, bands, i).now,
        !samples[i].current.below(bands[i].low) && !bands[i].high.below(samples[i].current)
            ==> verdict_at(calling, samples, bands, i).now == verdict_at(
            calling,
            samples,
            bands,
            i,
        ).previous,
{
    lemma_others_keep_theirs(calling, samples.take(i), bands, samples[i].id);
}

/// A decision about which no sample speaks stays.
proof fn lemma_others_keep_theirs(
    calling: Map<Seq<char>, bool>,
    samples: Seq<Measured>,
    bands: Seq<Band>,
    id: Seq<char>,
)
    requires
        forall|j: int| 0 <= j < samples.len() ==> (#[trigger] samples[j]).id != id,
    ensures
        calling_after(calling, samples, bands).contains_key(id) == calling.contains_key(id),
        decided(calling_after(calling, samples, bands), id) == decided(calling, id),
    decreases samples.len(),
{
    if samples.len() > 0 {
        assert(samples[samples.len() - 1].id != id);
        lemma_others_keep_theirs(calling, samples.drop_last(), bands, id);
    }
}

/// A cold room is heated: where a pattern of some zone finds a thermostat that says its two
/// temperatures, and the measured one lies below the margin around the setpoint, the pump of
/// that zone is wanted on and the poll ends with demand, whatever was decided before.
pub proof fn law_cold_room_is_heated(
    config: Config,
    entities: Seq<Entity>,
    margin: spec_fn(Degrees) -> Band,
    points: Seq<(Pass, Map<Seq<char>, bool>, Attempts)>,
    reports: Seq<ZoneReport>,
    moments: Seq<u128>,
    z: int,
    i: int,
    e: Entity,
    current: u64,
    setpoint: u64,
)
    requires
        ids_ascending(entities),
        reports.len() == config.zones.keys().len(),
        passed_zones(config, entities, margin, points, reports, moments),
        0 <= z < config.zones.keys().len(),
        0 <= i < config.zones@[config.zones.keys()[z]]@.len(),
        selected(entities, config.zones@[config.zones.keys()[z]]@[i]@).contains(e),
        readable(e, current, setpoint),
        (Degrees { bits: current }).below(margin(Degrees { bits: setpoint }).low),
    ensures
        reports[z].want_on,
        points.last().0.demand,
        points.last().1.contains_key(e.entity_id@) && points.last().1[e.entity_id@],
{
    let m = Measured {
        id: e.entity_id@,
        current: Degrees { bits: current },
        setpoint: Degrees { bits: setpoint },
    };
    let patterns = zone_patterns(config, z);
    assert(patterns[i] == config.zones@[config.zones.keys()[z]]@[i]@);
    law_selection_is_exact_and_ordered(entities, patterns[i]);
    law_zone_hears_all_it_selects(entities, patterns, m);
    assert(entities.contains(e) && selects(patterns[i], e));
    assert(heard(config, entities, z).contains(m));
    assert(calls_by_itself(points[0].1, margin, m));
    law_whole_poll(config, entities, margin, points, reports, moments);
    assert(reports[z].want_on);
}

/// Demand has a cause: where the pump of a zone is wanted on, a pattern of that zone finds a
/// thermostat that says its two temperatures and that lies below the margin, or does not lie
/// above it and called for heat before the poll. Where there is demand, some pump is wanted on.
pub proof fn law_demand_has_a_cause(
    config: Config,
    entities: Seq<Entity>,
    margin: spec_fn(Degrees) -> Band,
    points: Seq<(Pass, Map<Seq<char>, bool>, Attempts)>,
    reports: Seq<ZoneReport>,
    moments: Seq<u128>,
)
    requires
        ids_ascending(entities),
        reports.len() == config.zones.keys().len(),
        passed_zones(config, entities, margin, points, reports, moments),
    ensures
        points.last().0.demand ==> exists|z: int|
            0 <= z < config.zones.keys().len() && (#[trigger] reports[z]).want_on,
        forall|z: int|
            0 <= z < config.zones.keys().len() && (#[trigger] reports[z]).want_on ==> exists|
                e: Entity,
                i: int,
                current: u64,
                setpoint: u64,
            |
                #![trigger selected(entities, config.zones@[config.zones.keys()[z]]@[i]@).contains(e), readable(e, current, setpoint)]
                {
                    &&& 0 <= i < config.zones@[config.zones.keys()[z]]@.len()
                    &&& selected(
                        entities,
                        config.zones@[config.zones.keys()[z]]@[i]@,
                    ).contains(e)
                    &&& readable(e, current, setpoint)
                    &&& (Degrees { bits: current }).below(margin(Degrees { bits: setpoint }).low) || (
                    !margin(Degrees { bits: setpoint }).high.below(Degrees { bits: current })
                        && points[0].1.contains_key(e.entity_id@) && points[0].1[e.entity_id@])
                },
{
    law_whole_poll(config, entities, margin, points, reports, moments);
    if points.last().0.demand {
        let (z, m) = choose|z: int, m: Measured|
            0 <= z < config.zones.keys().len() && #[trigger] heard(config, entities, z).contains(m)
                && calls_by_itself(points[0].1, margin, m);
        assert(reports[z].want_on);
    }
    assert forall|z: int|
        0 <= z < config.zones.keys().len() && (#[trigger] reports[z]).want_on implies exists|
            e: Entity,
            i: int,
            current: u64,
            setpoint: u64,
        |
            #![trigger selected(entities, config.zones@[config.zones.keys()[z]]@[i]@).contains(e), readable(e, current, setpoint)]
            {
                &&& 0 <= i < config.zones@[config.zones.keys()[z]]@.len()
                &&& selected(entities, config.zones@[config.zones.keys()[z]]@[i]@).contains(e)
                &&& readable(e, current, setpoint)
                &&& (Degrees { bits: current }).below(margin(Degrees { bits: setpoint }).low) || (
                !margin(Degrees { bits: setpoint }).high.below(Degrees { bits: current })
                    && points[0].1.contains_key(e.entity_id@) && points[0].1[e.entity_id@])
            } by {
        let m = choose|m: Measured| #[trigger]
            heard(config, entities, z).contains(m) && calls_by_itself(points[0].1, margin, m);
        let patterns = zone_patterns(config, z);
        law_zone_hears_all_it_selects(entities, patterns, m);
        let (e, i) = choose|e: Entity, i: int|
            #![trigger entities.contains(e), patterns[i]]
            entities.contains(e) && measured(e) == Some(m) && 0 <= i < patterns.len() && selects(
                patterns[i],
                e,
            );
        law_selection_is_exact_and_ordered(entities, patterns[i]);
        assert(patterns[i] == config.zones@[config.zones.keys()[z]]@[i]@);
        assert(m.current == Degrees { bits: m.current.bits });
        assert(m.setpoint == Degrees { bits: m.setpoint.bits });
        assert(readable(e, m.current.bits, m.setpoint.bits));
        assert(selected(entities, config.zones@[config.zones.keys()[z]]@[i]@).contains(e));
    }
}

/// The text by which the pump of a zone is looked up: the name of the zone where that holds a
/// dot, and otherwise the name behind `switch.`.
pub open spec fn looked_up_as(pump: Seq<char>, pattern: Seq<char>) -> bool {
    ||| pump.contains('.') && pattern == pump
    ||| !pump.contains('.') && pattern == "switch."@ + pump
}

/// What is decided about a pump that is found, alone, and within reach: nothing is sent where it
/// is as wanted. Where it is not, it is switched at once if no attempt is remembered under its id
/// and what is wanted, and otherwise again as soon as the interval has passed.
pub proof fn law_pump_that_is_found_is_switched(
    entities: Seq<Entity>,
    pump: Seq<char>,
    pattern: Seq<char>,
    e: Entity,
    want_on: bool,
    attempts: Attempts,
    now: u128,
    key: Seq<char>,
)
    requires
        ids_ascending(entities),
        looked_up_as(pump, pattern),
        selected(entities, pattern).contains(e),
        forall|x: Entity| #[trigger] selected(entities, pattern).contains(x) ==> x == e,
        e.state@ != "unavailable"@ && e.state@ != "unknown"@,
        key == e.entity_id@ + if want_on {
            ":true"@
        } else {
            ":false"@
        },
    ensures
        ({
            let (step, after) = pump_step(entities, pump, want_on, attempts, now);
            match step {
                PumpStep::Decided(id, state, gate) => {
                    &&& id == e.entity_id@
                    &&& state == e.state@
                    &&& gate == Gate::Settled <==> (e.state@ == "on"@) == want_on
                    &&& gate == Gate::Settled ==> !after.last.contains_key(key)
                    &&& gate != Gate::Settled && !attempts.last.contains_key(key) ==> gate == (
                    Gate::Send { retry: false })
                    &&& gate != Gate::Settled && attempts.last.contains_key(key) && now
                        >= attempts.last[key] + attempts.min_interval ==> gate == (Gate::Send {
                        retry: true,
                    })
                    &&& gate != Gate::Settled && attempts.last.contains_key(key)
                        && attempts.last[key] <= now < attempts.last[key] + attempts.min_interval
                        ==> gate == (Gate::Wait {
                        nanos: (attempts.last[key] + attempts.min_interval - now) as u128,
                    })
                    &&& gate is Send ==> after.last.contains_key(key) && after.last[key] == now
                },
                _ => false,
            }
        }),
{
    law_one_entity_is_picked(entities, pattern, e);
    assert(pattern == pump_pattern(pump));
    assert(key == pump_key(e.entity_id@, want_on));
    let settled = (e.state@ == "on"@) == want_on;
    law_gate_goes_by_the_last_attempt(attempts, key, settled, now);
    law_gate_remembers_what_it_sends(attempts, key, key, settled, now);
}

/// A pump is found by its full id, which holds a dot, and by what stands behind `switch.` in it:
/// where it is within reach, not as wanted and nothing is remembered of it, it is switched.
pub proof fn law_pump_is_found_by_its_name(
    entities: Seq<Entity>,
    pump: Seq<char>,
    e: Entity,
    want_on: bool,
    attempts: Attempts,
    now: u128,
)
    requires
        ids_ascending(entities),
        entities.contains(e),
        looked_up_as(pump, e.entity_id@),
        !pump.contains('*'),
        e.state@ != "unavailable"@ && e.state@ != "unknown"@,
        !attempts.last.contains_key(
            e.entity_id@ + if want_on {
                ":true"@
            } else {
                ":false"@
            },
        ),
    ensures
        pump_step(entities, pump, want_on, attempts, now).0 == PumpStep::Decided(
            e.entity_id@,
            e.state@,
            if (e.state@ == "on"@) == want_on {
                Gate::Settled
            } else {
                Gate::Send { retry: false }
            },
        ),
{
    let id = e.entity_id@;
    reveal_strlit("switch.");
    assert(!id.contains('*')) by {
        if id.contains('*') {
            let k = choose|k: int| 0 <= k < id.len() && id[k] == '*';
            if !pump.contains('.') {
                assert(id == "switch."@ + pump);
                if k >= 7 {
                    assert(pump[k - 7] == '*');
                    assert(pump.contains('*'));
                }
            }
        }
    }
    law_exact_id_finds_its_entity(entities, id);
    let hits = selected(entities, id);
    assert(hits == seq![e]);
    assert(hits[0] == e);
    assert(hits.contains(e));
    law_pump_that_is_found_is_switched(
        entities,
        pump,
        id,
        e,
        want_on,
        attempts,
        now,
        id + if want_on {
            ":true"@
        } else {
            ":false"@
        },
    );
}

/// A pump that is not found, not found alone, or out of reach is left alone: what is done names
/// it, and nothing is sent or remembered.
pub proof fn law_pump_that_is_not_found_is_left_alone(
    entities: Seq<Entity>,
    pump: Seq<char>,
    pattern: Seq<char>,
    a: Entity,
    b: Entity,
    want_on: bool,
    attempts: Attempts,
    now: u128,
)
    requires
        ids_ascending(entities),
        looked_up_as(pump, pattern),
    ensures
        (forall|x: Entity| #[trigger] entities.contains(x) ==> !selected(
            entities,
            pattern,
        ).contains(x)) ==> pump_step(entities, pump, want_on, attempts, now) == (
            PumpStep::NoMatch(pattern),
            attempts,
        ),
        selected(entities, pattern).contains(a) && selected(entities, pattern).contains(b) && a != b
            ==> (pump_step(entities, pump, want_on, attempts, now).0 matches PumpStep::Ambiguous(
            p,
            ids,
        ) && p == pattern && ids.contains(a.entity_id@) && ids.contains(b.entity_id@))
            && pump_step(entities, pump, want_on, attempts, now).1 == attempts,
        selected(entities, pattern).contains(a) && (forall|x: Entity| #[trigger]
            selected(entities, pattern).contains(x) ==> x == a) && (a.state@ == "unavailable"@
            || a.state@ == "unknown"@) ==> pump_step(entities, pump, want_on, attempts, now) == (
            PumpStep::Unavailable(a.entity_id@, a.state@),
            attempts,
        ),
{
    law_one_entity_is_picked(entities, pattern, a);
    assert(pattern == pump_pattern(pump));
}

/// The pump of a zone follows its thermostats: where one of them lies below its margin, a pump
/// that is found by its name, off and not yet attempted is switched on; where all of them lie
/// above, one that is on and not yet attempted is switched off.
pub proof fn law_pump_follows_its_thermostats(
    before: (Pass, Map<Seq<char>, bool>, Attempts),
    after: (Pass, Map<Seq<char>, bool>, Attempts),
    report: ZoneReport,
    pump: Seq<char>,
    entities: Seq<Entity>,
    samples: Seq<Measured>,
    bands: Seq<Band>,
    now: u128,
    e: Entity,
)
    requires
        settled(before, after, report, pump, entities, samples, bands, now),
        ids_ascending(entities),
        entities.contains(e),
        looked_up_as(pump, e.entity_id@),
        !pump.contains('*'),
        e.state@ != "unavailable"@ && e.state@ != "unknown"@,
    ensures
        (exists|k: int|
            0 <= k < samples.len() && (#[trigger] samples[k]).current.below(bands[k].low))
            && e.state@ != "on"@ && !before.2.last.contains_key(e.entity_id@ + ":true"@)
            ==> report.outcome@ == PumpStep::Decided(
            e.entity_id@,
            e.state@,
            Gate::Send { retry: false },
        ) && report.want_on,
        (forall|k: int|
            0 <= k < samples.len() ==> !(#[trigger] samples[k]).current.below(bands[k].low)
                && bands[k].high.below(samples[k].current)) && e.state@ == "on"@
            && !before.2.last.contains_key(e.entity_id@ + ":false"@) ==> report.outcome@
            == PumpStep::Decided(e.entity_id@, e.state@, Gate::Send { retry: false })
            && !report.want_on,
{
    if exists|k: int|
        0 <= k < samples.len() && (#[trigger] samples[k]).current.below(bands[k].low) {
        let k = choose|k: int|
            0 <= k < samples.len() && (#[trigger] samples[k]).current.below(bands[k].low);
        assert(verdict_at(before.1, samples, bands, k).now);
        assert(report.want_on);
        if !before.2.last.contains_key(e.entity_id@ + ":true"@) {
            law_pump_is_found_by_its_name(entities, pump, e, true, before.2, now);
        }
    }
    if forall|k: int|
        0 <= k < samples.len() ==> !(#[trigger] samples[k]).current.below(bands[k].low)
            && bands[k].high.below(samples[k].current) {
        assert forall|k: int| 0 <= k < samples.len() implies !(#[trigger] verdict_at(
            before.1,
            samples,
            bands,
            k,
        )).now by {
            assert(!samples[k].current.below(bands[k].low));
        }
        assert(!report.want_on);
        if !before.2.last.contains_key(e.entity_id@ + ":false"@) {
            law_pump_is_found_by_its_name(entities, pump, e, false, before.2, now);
        }
    }
}

/// What settling a zone comes to: its pump is decided about as wanted, which is on exactly when
/// one of its thermostats is found to call, and that is added to the demand so far.
pub proof fn law_settled_zone_decides_about_its_pump(
    before: (Pass, Map<Seq<char>, bool>, Attempts),
    after: (Pass, Map<Seq<char>, bool>, Attempts),
    report: ZoneReport,
    pump: Seq<char>,
    entities: Seq<Entity>,
    samples: Seq<Measured>,
    bands: Seq<Band>,
    now: u128,
)
    requires
        settled(before, after, report, pump, entities, samples, bands, now),
    ensures
        (report.outcome@, after.2) == pump_step(entities, pump, report.want_on, before.2, now),
        report.want_on <==> exists|i: int|
            0 <= i < report.verdicts@.len() && (#[trigger] report.verdicts@[i]).now,
        report.verdicts@.len() == samples.len(),
        after.0.demand == (before.0.demand || report.want_on),
        after.0.done == before.0.done + 1,
{
    if report.want_on {
        let i = choose|i: int|
            0 <= i < samples.len() && (#[trigger] verdict_at(before.1, samples, bands, i)).now;
        assert(report.verdicts@[i].now);
    }
    if exists|i: int| 0 <= i < report.verdicts@.len() && (#[trigger] report.verdicts@[i]).now {
        let i = choose|i: int|
            0 <= i < report.verdicts@.len() && (#[trigger] report.verdicts@[i]).now;
        assert(verdict_at(before.1, samples, bands, i).now);
    }
}

/// A switching command that the pump dropped is sent again by the clock: once the interval has
/// passed since it was sent, a poll that finds the pump still not as wanted sends it as a retry,
/// whatever the clock reads then.
pub proof fn law_dropped_switching_is_sent_again(
    throttle: WriteThrottle,
    entities: Seq<Entity>,
    pump: Seq<char>,
    pattern: Seq<char>,
    e: Entity,
    want_on: bool,
    key: Seq<char>,
    first: u128,
    second: u128,
)
    requires
        ids_ascending(entities),
        looked_up_as(pump, pattern),
        selected(entities, pattern).contains(e),
        forall|x: Entity| #[trigger] selected(entities, pattern).contains(x) ==> x == e,
        e.state@ != "unavailable"@ && e.state@ != "unknown"@,
        (e.state@ == "on"@) != want_on,
        key == e.entity_id@ + if want_on {
            ":true"@
        } else {
            ":false"@
        },
        throttle@.last.contains_key(key),
        throttle@.last[key] == first,
        throttle.latest() >= first + throttle@.min_interval,
        throttle.clock_gives(second),
    ensures
        pump_step(entities, pump, want_on, throttle@, second).0 == PumpStep::Decided(
            e.entity_id@,
            e.state@,
            Gate::Send { retry: true },
        ),
{
    law_pump_that_is_found_is_switched(
        entities,
        pump,
        pattern,
        e,
        want_on,
        throttle@,
        second,
        key,
    );
}

/// Each pump, wanted on and wanted off, is throttled under a key of its own.
pub proof fn law_pumps_have_their_own_keys(
    a: Seq<char>,
    a_on: bool,
    b: Seq<char>,
    b_on: bool,
)
    requires
        pump_key(a, a_on) == pump_key(b, b_on),
    ensures
        a == b,
        a_on == b_on,
{
    reveal_strlit(":true");
    reveal_strlit(":false");
    let x = pump_key(a, a_on);
    let n = x.len() as int;
    let la: int = if a_on { 5 } else { 6 };
    let lb: int = if b_on { 5 } else { 6 };
    assert(n == a.len() + la && n == b.len() + lb);
    if a_on != b_on {
        assert(x[n - 2] == 'u' || x[n - 2] == 's');
        let on = if a_on { a } else { b };
        let off = if a_on { b } else { a };
        assert(pump_key(on, true)[n - 2] == 'u');
        assert(pump_key(off, false)[n - 2] == 's');
    }
    assert(a =~= x.take(a.len() as int));
    assert(b =~= pump_key(b, b_on).take(b.len() as int));
}

/// What is done about a pump is what the outcome spells out, and the samples and the faults of a
/// survey say what they spell out, one for one.
pub proof fn law_reports_say_what_they_spell_out(
    outcome: PumpOutcome,
    samples: Seq<Sample>,
    faults: Seq<Fault>,
    i: int,
)
    ensures
        match outcome {
            PumpOutcome::NoMatch { pattern } => outcome@ == PumpStep::NoMatch(pattern@),
            PumpOutcome::Ambiguous { pattern, ids } => outcome@ matches PumpStep::Ambiguous(p, all)
                && p == pattern@ && all.len() == ids@.len() && forall|k: int|
                0 <= k < all.len() ==> #[trigger] all[k] == ids@[k]@,
            PumpOutcome::Unavailable { entity_id, state } => outcome@ == PumpStep::Unavailable(
                entity_id@,
                state@,
            ),
            PumpOutcome::Decided { entity_id, state, gate } => outcome@ == PumpStep::Decided(
                entity_id@,
                state@,
                gate,
            ),
        },
        sample_views(samples).len() == samples.len(),
        fault_views(faults).len() == faults.len(),
        0 <= i < samples.len() ==> sample_views(samples)[i] == (Measured {
            id: samples[i].entity_id@,
            current: samples[i].current,
            setpoint: samples[i].setpoint,
        }),
        0 <= i < faults.len() ==> fault_views(faults)[i] == match faults[i] {
            Fault::NoMatch { pattern } => Silence::NoMatch(pattern@),
            Fault::Unavailable { entity_id, state } => Silence::Unavailable(entity_id@, state@),
            Fault::Incomplete { entity_id } => Silence::Incomplete(entity_id@),
        },
{
}

} // verus!
