//! The main thermostat, which controls the heat pump: the commands that it is sent, and in
//! which order.

use vstd::prelude::*;

use crate::config::Config;
use crate::degrees::Degrees;
use crate::entity::Entity;
use crate::home_assistant::{
    hvac_mode_call, preset_call, temperature_call, Call, FieldValue, HomeAssistant, ServiceCall,
};
use crate::json::{contents, member, Json};
use crate::states::{pick, picked, Pick, States};
use crate::text::{concat, same};
use crate::throttle::{Attempts, WriteThrottle};
use crate::writes::{
    gate, gated, law_gate_goes_by_the_last_attempt, law_gate_remembers_what_it_sends, Gate,
};

verus! {

/// Tolerance when comparing thermostat setpoints: the bits of the double nearest to 0.05.
pub const TEMP_EPSILON: u64 = 0x3fa9_9999_9999_999a;

/// One command to send to the main thermostat.
#[derive(Debug, Clone, PartialEq)]
pub enum Action {
    Preset(String),
    HvacMode(String),
    Setpoint { field: &'static str, value: Degrees },
}

/// One command to send to the main thermostat.
pub enum Command {
    Preset(Seq<char>),
    HvacMode(Seq<char>),
    Setpoint(Seq<char>, Degrees),
}

impl View for Action {
    type V = Command;

    open spec fn view(&self) -> Command {
        match self {
            Action::Preset(preset) => Command::Preset(preset@),
            Action::HvacMode(mode) => Command::HvacMode(mode@),
            Action::Setpoint { field, value } => Command::Setpoint(field@, *value),
        }
    }
}

/// What commands stand for.
pub open spec fn action_views(actions: Seq<Action>) -> Seq<Command> {
    actions.map_values(|action: Action| action@)
}

/// Picks the main thermostat among the entities of a poll. Nothing is sent to one that is not
/// found, not unique or not available.
pub fn select_main<'a>(states: &'a States, config: &Config) -> (choice: Pick<'a>)
    ensures
        choice@ == picked(states@, config.main@),
{
    pick(states, config.main.as_str())
}

/// The attribute that holds the setpoint, and the setpoint in it. In a mode with two setpoints
/// that is the lower one.
pub open spec fn setpoint_of(entity: Entity) -> (Seq<char>, Option<Degrees>) {
    if entity.number_attribute("temperature"@) is Some {
        ("temperature"@, entity.number_attribute("temperature"@))
    } else if entity.number_attribute("target_temp_low"@) is Some {
        ("target_temp_low"@, entity.number_attribute("target_temp_low"@))
    } else {
        ("temperature"@, None)
    }
}

/// The attribute that holds the setpoint of a thermostat, and the setpoint in it.
///
/// In a dual-setpoint mode (heat_cool / auto) Home Assistant reports null for `temperature` and
/// exposes target_temp_low/high instead.
pub fn setpoint_field(ent: &Entity) -> (found: (&'static str, Option<Degrees>))
    ensures
        (found.0@, found.1) == setpoint_of(*ent),
{
    if let Some(t) = ent.attr_f64("temperature") {
        return ("temperature", Some(t));
    }
    if let Some(low) = ent.attr_f64("target_temp_low") {
        return ("target_temp_low", Some(low));
    }
    ("temperature", None)
}

/// Setpoint to write to the main thermostat.
///
/// Calling for heat: its own measured temperature plus the increment, which the caller adds up
/// as `raised`. That puts the target above the room and keeps the heat pump running.
/// Idle: its own measured temperature, meaning do not heat.
pub fn target_setpoint(current: Degrees, raised: Degrees, demand: bool) -> (target: Degrees)
    ensures
        target == if demand {
            raised
        } else {
            current
        },
{
    if demand {
        raised
    } else {
        current
    }
}

/// The command for the hold, where one is configured.
pub open spec fn hold_part(preset: Option<Seq<char>>) -> Seq<Command> {
    match preset {
        Some(p) => seq![Command::Preset(p)],
        None => Seq::empty(),
    }
}

/// The command for the setpoint, where the thermostat reports what it measures.
pub open spec fn setpoint_part(entity: Entity, demand: bool, raised: Degrees) -> Seq<Command> {
    match entity.number_attribute("current_temperature"@) {
        Some(current) => seq![
            Command::Setpoint(
                setpoint_of(entity).0,
                if demand {
                    raised
                } else {
                    current
                },
            ),
        ],
        None => Seq::empty(),
    }
}

/// The commands for the main thermostat, in order.
pub open spec fn planned(
    entity: Entity,
    preset: Option<Seq<char>>,
    demand: bool,
    raised: Degrees,
) -> Seq<Command> {
    if demand {
        hold_part(preset) + seq![Command::HvacMode("heat"@)] + setpoint_part(entity, true, raised)
    } else if entity.state@ == "off"@ {
        hold_part(preset) + seq![Command::HvacMode("off"@)]
    } else {
        hold_part(preset) + setpoint_part(entity, false, raised) + seq![Command::HvacMode("off"@)]
    }
}

/// The preset that a configuration asks for.
pub open spec fn wanted_preset(config: Config) -> Option<Seq<char>> {
    match config.preset_mode {
        Some(preset) => Some(preset@),
        None => None,
    }
}

/// Decides which commands to send to the main thermostat, **in order**.
///
/// - The hold comes first. On a thermostat that still has a schedule, a setpoint written under
///   `TemporaryHold` is discarded at the next scheduled change, so the hold has to be in place
///   before anything else is written.
/// - Turning on: mode before setpoint. A setpoint written while the thermostat is off is
///   rejected, and Home Assistant reports a null temperature then.
/// - Turning off: setpoint before mode, for the same reason in reverse: an idle setpoint can
///   only be written while the thermostat is still on.
///
/// `raised` is the measured temperature with the increment added. It is not looked at where the
/// thermostat reports no measured temperature.
pub fn plan_main(ent: &Entity, config: &Config, demand: bool, raised: Degrees) -> (actions: Vec<
    Action,
>)
    ensures
        action_views(actions@) == planned(*ent, wanted_preset(*config), demand, raised),
{
    let mut actions: Vec<Action> = Vec::new();
    assert(action_views(actions@) =~= Seq::<Command>::empty());
    if let Some(preset) = &config.preset_mode {
        actions.push(Action::Preset(preset.clone()));
    }
    let ghost hold = action_views(actions@);
    assert(hold =~= hold_part(wanted_preset(*config)));
    let (field, _) = setpoint_field(ent);
    let current = ent.attr_f64("current_temperature");
    if demand {
        actions.push(Action::HvacMode("heat".to_string()));
        let ghost mode = action_views(actions@);
        assert(mode =~= hold + seq![Command::HvacMode("heat"@)]);
        if let Some(current) = current {
            actions.push(
                Action::Setpoint { field, value: target_setpoint(current, raised, demand) },
            );
        }
        assert(action_views(actions@) =~= mode + setpoint_part(*ent, true, raised));
    } else {
        if !same(ent.hvac_mode(), "off") {
            if let Some(current) = current {
                actions.push(
                    Action::Setpoint { field, value: target_setpoint(current, raised, demand) },
                );
            }
            assert(action_views(actions@) =~= hold + setpoint_part(*ent, false, raised));
        }
        let ghost so_far = action_views(actions@);
        actions.push(Action::HvacMode("off".to_string()));
        assert(action_views(actions@) =~= so_far + seq![Command::HvacMode("off"@)]);
    }
    actions
}

/// What the caller works out of temperatures for a run of commands.
#[derive(Debug)]
pub struct Figures {
    /// The measured temperature with the increment added.
    pub raised: Degrees,
    /// The distance between the setpoint that the thermostat has and the one it is to have.
    pub gap: Degrees,
    /// The setpoint that the thermostat is to have, in print with one decimal.
    pub label: String,
}

/// The key under which a command is throttled: the entity, what is set, and to what.
pub open spec fn write_key(entity_id: Seq<char>, what: Seq<char>, to: Seq<char>) -> Seq<char> {
    entity_id + ":"@ + what + ":"@ + to
}

/// The key under which a command is throttled.
fn key_of(entity_id: &str, what: &str, to: &str) -> (key: String)
    ensures
        key@ == write_key(entity_id@, what@, to@),
{
    let mut key = concat(entity_id, ":");
    key.append(what);
    key.append(":");
    key.append(to);
    key
}

/// The HVAC mode command: settled where the thermostat is in that mode.
pub open spec fn hvac_mode_gate(
    entity_id: Seq<char>,
    actual: Seq<char>,
    desired: Seq<char>,
    attempts: Attempts,
    now: u128,
) -> (Gate, Attempts) {
    gated(attempts, write_key(entity_id, "hvac_mode"@, desired), actual == desired, now)
}

/// Decides whether the command for an HVAC mode is sent at the moment `now`.
pub fn ensure_hvac_mode(
    entity_id: &str,
    actual: &str,
    desired: &str,
    throttle: &mut WriteThrottle,
    now: u128,
) -> (decision: Gate)
    ensures
        (decision, final(throttle)@) == hvac_mode_gate(
            entity_id@,
            actual@,
            desired@,
            old(throttle)@,
            now,
        ),
        final(throttle).origin() == old(throttle).origin(),
        final(throttle).latest() == old(throttle).latest(),
{
    let key = key_of(entity_id, "hvac_mode", desired);
    gate(throttle, key.as_str(), same(actual, desired), now)
}

/// The setpoint command: settled where the thermostat has a setpoint that is close enough.
pub open spec fn setpoint_gate(
    entity_id: Seq<char>,
    field: Seq<char>,
    actual: Option<Degrees>,
    gap: Degrees,
    label: Seq<char>,
    attempts: Attempts,
    now: u128,
) -> (Gate, Attempts) {
    gated(
        attempts,
        write_key(entity_id, field, label),
        actual is Some && gap.at_most(Degrees { bits: TEMP_EPSILON }),
        now,
    )
}

/// Decides whether the command for a setpoint is sent at the moment `now`. `gap` is the
/// distance between the setpoint that the thermostat has and the wanted one, and `label` is the
/// wanted one in print.
pub fn ensure_setpoint(
    entity_id: &str,
    field: &str,
    actual: Option<Degrees>,
    gap: Degrees,
    label: &str,
    throttle: &mut WriteThrottle,
    now: u128,
) -> (decision: Gate)
    ensures
        (decision, final(throttle)@) == setpoint_gate(
            entity_id@,
            field@,
            actual,
            gap,
            label@,
            old(throttle)@,
            now,
        ),
        final(throttle).origin() == old(throttle).origin(),
        final(throttle).latest() == old(throttle).latest(),
{
    let key = key_of(entity_id, field, label);
    let settled = actual.is_some() && gap.le(Degrees::from_bits(TEMP_EPSILON));
    gate(throttle, key.as_str(), settled, now)
}

/// The preset that a thermostat is in.
pub open spec fn actual_preset(entity: Entity) -> Seq<char> {
    match entity.text_attribute("preset_mode"@) {
        Some(preset) => preset,
        None => "unknown"@,
    }
}

/// The preset command: not sent to a thermostat that advertises presets without this one, and
/// settled where the thermostat is in that preset.
pub open spec fn preset_gate(
    entity: Entity,
    desired: Seq<char>,
    attempts: Attempts,
    now: u128,
) -> (Gate, Attempts) {
    if entity.presets().len() > 0 && !entity.presets().contains(desired) {
        (Gate::Unsupported, attempts)
    } else {
        gated(
            attempts,
            write_key(entity.entity_id@, "preset_mode"@, desired),
            actual_preset(entity) == desired,
            now,
        )
    }
}

/// Whether a list holds a text.
fn lists(presets: &Vec<&str>, wanted: &str) -> (found: bool)
    ensures
        found == presets@.map_values(|preset: &str| preset@).contains(wanted@),
{
    let ghost views = presets@.map_values(|preset: &str| preset@);
    let mut i: usize = 0;
    while i < presets.len()
        invariant
            i <= presets.len(),
            views == presets@.map_values(|preset: &str| preset@),
            forall|j: int| 0 <= j < i ==> views[j] != wanted@,
        decreases presets.len() - i,
    {
        assert(views[i as int] == presets@[i as int]@);
        if same(presets[i], wanted) {
            return true;
        }
        i += 1;
    }
    false
}

/// Decides whether the command that holds the thermostat in a preset (typically
/// `PermanentHold`) is sent at the moment `now`.
pub fn ensure_preset_mode(
    ent: &Entity,
    desired: &str,
    throttle: &mut WriteThrottle,
    now: u128,
) -> (decision: Gate)
    ensures
        (decision, final(throttle)@) == preset_gate(*ent, desired@, old(throttle)@, now),
        final(throttle).origin() == old(throttle).origin(),
        final(throttle).latest() == old(throttle).latest(),
{
    let supported = ent.preset_modes();
    assert(supported@.map_values(|preset: &str| preset@).len() == supported@.len());
    if supported.len() > 0 && !lists(&supported, desired) {
        return Gate::Unsupported;
    }
    let actual = match ent.attr_str("preset_mode") {
        Some(preset) => preset,
        None => "unknown",
    };
    let key = key_of(ent.entity_id.as_str(), "preset_mode", desired);
    gate(throttle, key.as_str(), same(actual, desired), now)
}

/// Whether a command of a run is sent, and what the throttle remembers then.
pub open spec fn command_gate(
    command: Command,
    entity: Entity,
    figures: Figures,
    attempts: Attempts,
    now: u128,
) -> (Gate, Attempts) {
    match command {
        Command::Preset(preset) => preset_gate(entity, preset, attempts, now),
        Command::HvacMode(mode) => hvac_mode_gate(
            entity.entity_id@,
            entity.state@,
            mode,
            attempts,
            now,
        ),
        Command::Setpoint(field, _) => setpoint_gate(
            entity.entity_id@,
            field,
            setpoint_of(entity).1,
            figures.gap,
            figures.label@,
            attempts,
            now,
        ),
    }
}

/// The service call that carries a command out.
pub open spec fn call_of(command: Command, entity_id: Seq<char>) -> Call {
    match command {
        Command::Preset(preset) => preset_call(entity_id, preset),
        Command::HvacMode(mode) => hvac_mode_call(entity_id, mode),
        Command::Setpoint(field, value) => temperature_call(entity_id, field, value),
    }
}

impl Action {
    /// The service call that carries the command out.
    pub fn call(&self, ha: &HomeAssistant, entity_id: &str) -> (call: ServiceCall)
        ensures
            call@ == call_of(self@, entity_id@),
    {
        match self {
            Action::Preset(preset) => ha.set_preset_mode(entity_id, preset.as_str()),
            Action::HvacMode(mode) => ha.set_hvac_mode(entity_id, mode.as_str()),
            Action::Setpoint { field, value } => ha.set_temperature(entity_id, field, *value),
        }
    }
}

/// The commands that are left after the first one was decided about. Where the mode has to
/// wait, so has everything behind it.
pub open spec fn left_after(left: Seq<Command>, gate: Gate) -> Seq<Command> {
    if left[0] is HvacMode && gate is Wait {
        Seq::empty()
    } else {
        left.drop_first()
    }
}

/// The commands that are left after one was sent and answered. Where the mode was not accepted,
/// nothing behind it is sent.
pub open spec fn left_after_reply(left: Seq<Command>, sent: Command, accepted: bool) -> Seq<Command> {
    if sent is HvacMode && !accepted {
        Seq::empty()
    } else {
        left
    }
}

/// A run of commands for the main thermostat.
#[derive(Debug)]
pub struct MainRun {
    left: Vec<Action>,
    figures: Figures,
}

impl MainRun {
    /// The commands that are left.
    pub closed spec fn left(self) -> Seq<Command> {
        action_views(self.left@)
    }

    /// The figures of the run.
    pub closed spec fn figures(self) -> Figures {
        self.figures
    }

    /// Begins a run that drives the main thermostat to match overall demand.
    pub fn new(ent: &Entity, config: &Config, demand: bool, figures: Figures) -> (run: Self)
        ensures
            run.left() == planned(*ent, wanted_preset(*config), demand, figures.raised),
            run.figures() == figures,
    {
        let left = plan_main(ent, config, demand, figures.raised);
        MainRun { left, figures }
    }

    /// Decides about the next command at the moment `now`, given what Home Assistant reports of
    /// the thermostat, so that a command which it quietly dropped is retried.
    pub fn step_at(&mut self, ent: &Entity, throttle: &mut WriteThrottle, now: u128) -> (next: Option<
        (Action, Gate),
    >)
        ensures
            stepped(
                (*old(self), old(throttle)@),
                (*final(self), final(throttle)@),
                next,
                *ent,
                now,
            ),
            final(throttle).origin() == old(throttle).origin(),
            final(throttle).latest() == old(throttle).latest(),
    {
        if self.left.len() == 0 {
            assert(self.left().len() == 0);
            return None;
        }
        let ghost before = self.left@;
        let action = self.left.remove(0);
        assert(action_views(before)[0] == action@);
        assert(action_views(self.left@) =~= action_views(before).drop_first());
        let id = ent.entity_id.as_str();
        let decision = match &action {
            Action::Preset(preset) => ensure_preset_mode(ent, preset.as_str(), throttle, now),
            Action::HvacMode(mode) => {
                let decision = ensure_hvac_mode(id, ent.hvac_mode(), mode.as_str(), throttle, now);
                if let Gate::Wait { .. } = decision {
                    self.left = Vec::new();
                    assert(action_views(self.left@) =~= Seq::<Command>::empty());
                }
                decision
            },
            Action::Setpoint { field, .. } => {
                let (_, actual) = setpoint_field(ent);
                ensure_setpoint(
                    id,
                    field,
                    actual,
                    self.figures.gap,
                    self.figures.label.as_str(),
                    throttle,
                    now,
                )
            },
        };
        Some((action, decision))
    }

    /// Decides about the next command at the moment that the clock of the throttle gives, given
    /// what Home Assistant reports of the thermostat.
    pub fn step(&mut self, ent: &Entity, throttle: &mut WriteThrottle) -> (next: Option<
        (Action, Gate),
    >)
        ensures
            exists|now: u128|
                #[trigger] stepped(
                    (*old(self), old(throttle)@),
                    (*final(self), final(throttle)@),
                    next,
                    *ent,
                    now,
                ) && old(throttle).clock_gives(now) && final(throttle).latest() == now,
            final(throttle).origin() == old(throttle).origin(),
    {
        let now = throttle.tick();
        self.step_at(ent, throttle, now)
    }

    /// Takes note of whether Home Assistant accepted a command that was sent.
    pub fn reply(&mut self, sent: &Action, accepted: bool)
        ensures
            final(self).left() == left_after_reply(old(self).left(), sent@, accepted),
            final(self).figures() == old(self).figures(),
    {
        if let Action::HvacMode(_) = sent {
            if !accepted {
                self.left = Vec::new();
                assert(action_views(self.left@) =~= Seq::<Command>::empty());
            }
        }
    }
}

/// What a step of a run does: it decides about the first of the commands that are left, and
/// goes on to the one behind it.
pub open spec fn stepped(
    before: (MainRun, Attempts),
    after: (MainRun, Attempts),
    next: Option<(Action, Gate)>,
    entity: Entity,
    now: u128,
) -> bool {
    &&& after.0.figures() == before.0.figures()
    &&& match next {
        Some((action, gate)) => {
            &&& before.0.left().len() > 0
            &&& action@ == before.0.left()[0]
            &&& (gate, after.1) == command_gate(
                action@,
                entity,
                before.0.figures(),
                before.1,
                now,
            )
            &&& after.0.left() == left_after(before.0.left(), gate)
        },
        None => {
            &&& before.0.left().len() == 0
            &&& after.0.left() == before.0.left()
            &&& after.1 == before.1
        },
    }
}

/// The commands that a run sends, given what is decided about each and whether it is accepted.
pub open spec fn sent(left: Seq<Command>, gates: Seq<Gate>, accepted: Seq<bool>) -> Seq<Command>
    decreases gates.len(),
{
    if left.len() == 0 || gates.len() == 0 || accepted.len() == 0 {
        Seq::empty()
    } else {
        let rest = left_after(left, gates[0]);
        if gates[0] is Send {
            seq![left[0]] + sent(
                left_after_reply(rest, left[0], accepted[0]),
                gates.drop_first(),
                accepted.drop_first(),
            )
        } else {
            sent(rest, gates.drop_first(), accepted.drop_first())
        }
    }
}

/// The hold comes first, where one is configured, and there is no other.
pub proof fn law_hold_comes_first(
    entity: Entity,
    preset: Option<Seq<char>>,
    demand: bool,
    raised: Degrees,
    i: int,
)
    requires
        0 <= i < planned(entity, preset, demand, raised).len(),
    ensures
        planned(entity, preset, demand, raised)[i] is Preset <==> preset is Some && i == 0,
        preset is Some ==> planned(entity, preset, demand, raised)[0] == Command::Preset(preset->0),
{
}

/// The plan sets one mode: `heat` with demand, and `off` without.
pub proof fn law_mode_matches_demand(
    entity: Entity,
    preset: Option<Seq<char>>,
    demand: bool,
    raised: Degrees,
)
    ensures
        ({
            let plan = planned(entity, preset, demand, raised);
            let mode = Command::HvacMode(
                if demand {
                    "heat"@
                } else {
                    "off"@
                },
            );
            exists|i: int|
                0 <= i < plan.len() && #[trigger] plan[i] == mode && forall|j: int|
                    0 <= j < plan.len() && j != i ==> !(#[trigger] plan[j] is HvacMode)
        }),
{
    let plan = planned(entity, preset, demand, raised);
    let i: int = if demand {
        hold_part(preset).len() as int
    } else {
        plan.len() - 1
    };
    assert(plan[i] is HvacMode);
}

/// With demand the mode `heat` comes before the setpoint, which is the measured temperature with
/// the increment added.
pub proof fn law_turning_on_sets_mode_before_setpoint(
    entity: Entity,
    preset: Option<Seq<char>>,
    raised: Degrees,
    i: int,
)
    requires
        0 <= i < planned(entity, preset, true, raised).len(),
        planned(entity, preset, true, raised)[i] is Setpoint,
    ensures
        i > 0,
        planned(entity, preset, true, raised)[i - 1] == Command::HvacMode("heat"@),
        planned(entity, preset, true, raised)[i] == Command::Setpoint(setpoint_of(entity).0, raised),
{
}

/// Without demand the mode `off` comes last, and the setpoint before it is the measured
/// temperature. No setpoint is written to a thermostat that is off.
pub proof fn law_turning_off_sets_setpoint_before_mode(
    entity: Entity,
    preset: Option<Seq<char>>,
    raised: Degrees,
    i: int,
)
    requires
        0 <= i < planned(entity, preset, false, raised).len(),
    ensures
        planned(entity, preset, false, raised).last() == Command::HvacMode("off"@),
        planned(entity, preset, false, raised)[i] is HvacMode <==> i == planned(
            entity,
            preset,
            false,
            raised,
        ).len() - 1,
        planned(entity, preset, false, raised)[i] is Setpoint ==> entity.state@ != "off"@ && Some(
            planned(entity, preset, false, raised)[i]->Setpoint_1,
        ) == entity.number_attribute("current_temperature"@),
{
}

/// With demand a setpoint is sent only where the thermostat is in mode `heat` already, or
/// accepted that mode in the same run.
pub proof fn law_no_setpoint_without_heat(
    entity: Entity,
    preset: Option<Seq<char>>,
    raised: Degrees,
    gates: Seq<Gate>,
    accepted: Seq<bool>,
    i: int,
)
    requires
        gates.len() == accepted.len(),
        0 <= i < sent(planned(entity, preset, true, raised), gates, accepted).len(),
        sent(planned(entity, preset, true, raised), gates, accepted)[i] is Setpoint,
    ensures
        ({
            let mode: int = if preset is Some {
                1
            } else {
                0
            };
            &&& mode < gates.len()
            &&& !(gates[mode] is Wait)
            &&& gates[mode] is Send ==> accepted[mode]
        }),
{
    reveal_with_fuel(sent, 4);
    let plan = planned(entity, preset, true, raised);
    if preset is Some {
        assert(plan[0] is Preset);
        assert(plan[1] is HvacMode);
        assert(plan.drop_first()[0] is HvacMode);
    } else {
        assert(plan[0] is HvacMode);
    }
}

/// Commands that set different things, or the same thing to something else, are throttled
/// apart.
pub proof fn law_commands_have_their_own_keys(
    entity_id: Seq<char>,
    what: Seq<char>,
    to: Seq<char>,
    other_what: Seq<char>,
    other_to: Seq<char>,
)
    requires
        !what.contains(':'),
        !other_what.contains(':'),
        write_key(entity_id, what, to) == write_key(entity_id, other_what, other_to),
    ensures
        what == other_what,
        to == other_to,
{
    reveal_strlit(":");
    let key = write_key(entity_id, what, to);
    let n = entity_id.len() as int;
    let a = what.len() as int;
    let b = other_what.len() as int;
    assert(":"@ =~= seq![':']);
    assert(key[n + 1 + a] == ':');
    assert(key[n + 1 + b] == ':');
    if a < b {
        assert(key[n + 1 + a] == other_what[a]);
        assert(other_what.contains(':'));
    } else if b < a {
        assert(key[n + 1 + b] == what[b]);
        assert(what.contains(':'));
    }
    assert(what =~= other_what) by {
        assert forall|i: int| 0 <= i < a implies what[i] == other_what[i] by {
            assert(key[n + 1 + i] == what[i]);
            assert(key[n + 1 + i] == other_what[i]);
        }
    }
    assert(key.len() == n + 2 + a + to.len());
    assert(write_key(entity_id, other_what, other_to).len() == n + 2 + b + other_to.len());
    assert(to =~= other_to) by {
        assert forall|i: int| 0 <= i < to.len() implies to[i] == other_to[i] by {
            assert(key[n + 2 + a + i] == to[i]);
            assert(key[n + 2 + a + i] == other_to[i]);
        }
    }
}

/// A thermostat that is as the plan wants it is sent nothing.
pub proof fn law_steady_state_sends_nothing(
    entity: Entity,
    preset: Option<Seq<char>>,
    demand: bool,
    figures: Figures,
    attempts: Attempts,
    now: u128,
    i: int,
)
    requires
        0 <= i < planned(entity, preset, demand, figures.raised).len(),
        preset is Some ==> actual_preset(entity) == preset->0,
        demand ==> entity.state@ == "heat"@ && setpoint_of(entity).1 is Some
            && figures.gap.at_most(Degrees { bits: TEMP_EPSILON }),
        !demand ==> entity.state@ == "off"@,
    ensures
        !(command_gate(
            planned(entity, preset, demand, figures.raised)[i],
            entity,
            figures,
            attempts,
            now,
        ).0 is Send),
{
}

/// Where the setpoint of a thermostat is found: under `temperature` where that is a number,
/// otherwise under `target_temp_low` where that is one, and otherwise nowhere, with the name
/// `temperature` kept for the command.
pub proof fn law_where_the_setpoint_is_found(entity: Entity)
    ensures
        match (
            member(contents(entity.attributes), "temperature"@),
            member(contents(entity.attributes), "target_temp_low"@),
        ) {
            (Some(Json::Number(bits)), _) => setpoint_of(entity) == (
                "temperature"@,
                Some(Degrees { bits }),
            ),
            (_, Some(Json::Number(bits))) => setpoint_of(entity) == (
                "target_temp_low"@,
                Some(Degrees { bits }),
            ),
            _ => setpoint_of(entity) == ("temperature"@, None::<Degrees>),
        },
{
}

/// The plan, command by command. With demand: the hold, the mode `heat`, and the raised
/// temperature as setpoint. Without: the hold, the measured temperature as setpoint unless the
/// thermostat is off, and the mode `off`. The hold is left out where none is configured, and the
/// setpoint where no number is measured.
pub proof fn law_what_is_planned(
    entity: Entity,
    preset: Seq<char>,
    raised: Degrees,
    measured: u64,
)
    ensures
        ({
            let reported = member(contents(entity.attributes), "current_temperature"@);
            let field = setpoint_of(entity).0;
            let hold = Command::Preset(preset);
            let heat = Command::HvacMode("heat"@);
            let off = Command::HvacMode("off"@);
            let high = Command::Setpoint(field, raised);
            let idle = Command::Setpoint(field, Degrees { bits: measured });
            &&& reported == Some(Json::Number(measured)) ==> {
                &&& planned(entity, Some(preset), true, raised) == seq![hold, heat, high]
                &&& planned(entity, None, true, raised) == seq![heat, high]
            }
            &&& reported == Some(Json::Number(measured)) && entity.state@ != "off"@ ==> {
                &&& planned(entity, Some(preset), false, raised) == seq![hold, idle, off]
                &&& planned(entity, None, false, raised) == seq![idle, off]
            }
            &&& !(reported matches Some(Json::Number(_))) ==> {
                &&& planned(entity, Some(preset), true, raised) == seq![hold, heat]
                &&& planned(entity, None, true, raised) == seq![heat]
            }
            &&& !(reported matches Some(Json::Number(_))) || entity.state@ == "off"@ ==> {
                &&& planned(entity, Some(preset), false, raised) == seq![hold, off]
                &&& planned(entity, None, false, raised) == seq![off]
            }
        }),
{
    let field = setpoint_of(entity).0;
    let hold = Command::Preset(preset);
    let heat = Command::HvacMode("heat"@);
    let off = Command::HvacMode("off"@);
    let high = Command::Setpoint(field, raised);
    let idle = Command::Setpoint(field, Degrees { bits: measured });
    let held_on = planned(entity, Some(preset), true, raised);
    let on = planned(entity, None, true, raised);
    let held_idle = planned(entity, Some(preset), false, raised);
    let idling = planned(entity, None, false, raised);
    if member(contents(entity.attributes), "current_temperature"@) == Some(Json::Number(measured)) {
        assert(held_on =~= seq![hold, heat, high]);
        assert(on =~= seq![heat, high]);
        if entity.state@ != "off"@ {
            assert(held_idle =~= seq![hold, idle, off]);
            assert(idling =~= seq![idle, off]);
        }
    }
    if !(member(contents(entity.attributes), "current_temperature"@) matches Some(Json::Number(_))) {
        assert(held_on =~= seq![hold, heat]);
        assert(on =~= seq![heat]);
    }
    if !(member(contents(entity.attributes), "current_temperature"@) matches Some(Json::Number(_)))
        || entity.state@ == "off"@ {
        assert(held_idle =~= seq![hold, off]);
        assert(idling =~= seq![off]);
    }
}

/// A command that is not settled goes by the last attempt under its key alone: it is sent at once
/// where none is remembered, again as soon as the interval has passed, and not before; and what
/// is sent counts as attempted then.
pub open spec fn sent_by_last_attempt(
    attempts: Attempts,
    key: Seq<char>,
    now: u128,
    gate: Gate,
    after: Attempts,
) -> bool {
    &&& !attempts.last.contains_key(key) ==> gate == (Gate::Send { retry: false })
    &&& attempts.last.contains_key(key) && now >= attempts.last[key] + attempts.min_interval
        ==> gate == (Gate::Send { retry: true })
    &&& attempts.last.contains_key(key) && attempts.last[key] <= now < attempts.last[key]
        + attempts.min_interval ==> gate == (Gate::Wait {
        nanos: (attempts.last[key] + attempts.min_interval - now) as u128,
    })
    &&& gate is Send ==> after.last.contains_key(key) && after.last[key] == now
}

/// The command for a mode is settled exactly when the thermostat reports that mode. In any other
/// mode it goes by the last attempt.
pub proof fn law_mode_is_sent_where_it_differs(
    entity_id: Seq<char>,
    actual: Seq<char>,
    desired: Seq<char>,
    attempts: Attempts,
    now: u128,
    key: Seq<char>,
)
    requires
        key == entity_id + ":hvac_mode:"@ + desired,
    ensures
        ({
            let (gate, after) = hvac_mode_gate(entity_id, actual, desired, attempts, now);
            &&& gate == Gate::Settled <==> actual == desired
            &&& actual == desired ==> !after.last.contains_key(key)
            &&& actual != desired ==> sent_by_last_attempt(attempts, key, now, gate, after)
        }),
{
    reveal_strlit(":");
    reveal_strlit("hvac_mode");
    reveal_strlit(":hvac_mode:");
    assert(key =~= write_key(entity_id, "hvac_mode"@, desired));
    law_gate_goes_by_the_last_attempt(attempts, key, actual == desired, now);
    law_gate_remembers_what_it_sends(attempts, key, key, actual == desired, now);
}

/// The command for a setpoint is settled exactly when the thermostat has one that is at most 0.05
/// degrees off. Otherwise it goes by the last attempt.
pub proof fn law_setpoint_is_sent_where_it_differs(
    entity_id: Seq<char>,
    field: Seq<char>,
    actual: Option<Degrees>,
    gap: Degrees,
    label: Seq<char>,
    attempts: Attempts,
    now: u128,
    key: Seq<char>,
)
    requires
        key == entity_id + ":"@ + field + ":"@ + label,
    ensures
        ({
            let (gate, after) = setpoint_gate(entity_id, field, actual, gap, label, attempts, now);
            let close = actual is Some && gap.at_most(Degrees { bits: 0x3fa9_9999_9999_999a });
            &&& gate == Gate::Settled <==> close
            &&& close ==> !after.last.contains_key(key)
            &&& !close ==> sent_by_last_attempt(attempts, key, now, gate, after)
        }),
{
    let close = actual is Some && gap.at_most(Degrees { bits: 0x3fa9_9999_9999_999a });
    law_gate_goes_by_the_last_attempt(attempts, key, close, now);
    law_gate_remembers_what_it_sends(attempts, key, key, close, now);
}

/// The command for a preset is not sent to a thermostat that advertises presets and not this one.
/// Otherwise it is settled exactly when the thermostat reports that preset, where a thermostat
/// that reports none counts as in `unknown`, and goes by the last attempt in any other.
pub proof fn law_preset_is_sent_where_it_differs(
    entity: Entity,
    desired: Seq<char>,
    attempts: Attempts,
    now: u128,
    key: Seq<char>,
)
    requires
        key == entity.entity_id@ + ":preset_mode:"@ + desired,
    ensures
        ({
            let (gate, after) = preset_gate(entity, desired, attempts, now);
            let foreign = entity.presets().len() > 0 && forall|i: int|
                0 <= i < entity.presets().len() ==> #[trigger] entity.presets()[i] != desired;
            let held = match member(contents(entity.attributes), "preset_mode"@) {
                Some(Json::Text(actual)) => actual == desired,
                _ => desired == "unknown"@,
            };
            &&& gate == Gate::Unsupported <==> foreign
            &&& foreign ==> after == attempts
            &&& gate == Gate::Settled <==> !foreign && held
            &&& !foreign && !held ==> sent_by_last_attempt(attempts, key, now, gate, after)
        }),
{
    reveal_strlit(":");
    reveal_strlit("preset_mode");
    reveal_strlit(":preset_mode:");
    assert(key =~= write_key(entity.entity_id@, "preset_mode"@, desired));
    let held = actual_preset(entity) == desired;
    law_gate_goes_by_the_last_attempt(attempts, key, held, now);
    law_gate_remembers_what_it_sends(attempts, key, key, held, now);
    if entity.presets().contains(desired) {
        let i = choose|i: int| 0 <= i < entity.presets().len() && entity.presets()[i] == desired;
        assert(entity.presets()[i] == desired);
    }
}

/// Each command of a run is decided about by what Home Assistant reports of the thermostat: the
/// mode by its state, the setpoint by the attribute that holds it and by how far that is off.
pub proof fn law_commands_are_held_against_the_report(
    entity: Entity,
    figures: Figures,
    attempts: Attempts,
    now: u128,
    mode: Seq<char>,
    preset: Seq<char>,
    field: Seq<char>,
    value: Degrees,
)
    ensures
        command_gate(Command::HvacMode(mode), entity, figures, attempts, now) == hvac_mode_gate(
            entity.entity_id@,
            entity.state@,
            mode,
            attempts,
            now,
        ),
        command_gate(Command::Preset(preset), entity, figures, attempts, now) == preset_gate(
            entity,
            preset,
            attempts,
            now,
        ),
        command_gate(Command::Setpoint(field, value), entity, figures, attempts, now)
            == setpoint_gate(
            entity.entity_id@,
            field,
            setpoint_of(entity).1,
            figures.gap,
            figures.label@,
            attempts,
            now,
        ),
{
}

/// The service call for a command names the thermostat and sets what the command says, as the
/// command says it.
pub proof fn law_call_sets_what_the_command_says(
    entity_id: Seq<char>,
    text: Seq<char>,
    field: Seq<char>,
    value: Degrees,
)
    ensures
        call_of(Command::HvacMode(text), entity_id).service == "set_hvac_mode"@,
        call_of(Command::HvacMode(text), entity_id).data == seq![
            ("entity_id"@, FieldValue::Text(entity_id)),
            ("hvac_mode"@, FieldValue::Text(text)),
        ],
        call_of(Command::Preset(text), entity_id).service == "set_preset_mode"@,
        call_of(Command::Preset(text), entity_id).data == seq![
            ("entity_id"@, FieldValue::Text(entity_id)),
            ("preset_mode"@, FieldValue::Text(text)),
        ],
        call_of(Command::Setpoint(field, value), entity_id).service == "set_temperature"@,
        call_of(Command::Setpoint(field, value), entity_id).data == seq![
            ("entity_id"@, FieldValue::Text(entity_id)),
            (field, FieldValue::Number(value)),
        ],
        forall|command: Command| (#[trigger] call_of(command, entity_id)).domain == "climate"@,
{
}

/// What is left of a run after a step: all commands behind the first, unless that one is a mode
/// which has to wait or was not accepted. Then nothing is left.
pub proof fn law_what_is_left_of_a_run(left: Seq<Command>, gate: Gate, accepted: bool)
    requires
        left.len() > 0,
    ensures
        left[0] is HvacMode && gate is Wait ==> left_after(left, gate).len() == 0,
        !(left[0] is HvacMode) || !(gate is Wait) ==> left_after(left, gate) == left.skip(1),
        left[0] is HvacMode && !accepted ==> left_after_reply(left.skip(1), left[0], accepted).len()
            == 0,
        !(left[0] is HvacMode) || accepted ==> left_after_reply(left.skip(1), left[0], accepted)
            == left.skip(1),
{
    assert(left.drop_first() =~= left.skip(1));
}

/// A run of commands, step by step: each step decides about the first command that is left, at a
/// moment of its own, and the reply to a command that was sent is noted before the next step.
pub open spec fn ran(
    entity: Entity,
    points: Seq<(MainRun, Attempts)>,
    decided: Seq<(MainRun, Attempts)>,
    steps: Seq<(Action, Gate)>,
    moments: Seq<u128>,
    accepted: Seq<bool>,
) -> bool {
    &&& points.len() == steps.len() + 1
    &&& forall|i: int|
        0 <= i < steps.len() ==> {
            &&& stepped(points[i], decided[i], Some(#[trigger] steps[i]), entity, moments[i])
            &&& points[i + 1].1 == decided[i].1
            &&& points[i + 1].0.figures() == decided[i].0.figures()
            &&& points[i + 1].0.left() == if steps[i].1 is Send {
                left_after_reply(decided[i].0.left(), steps[i].0@, accepted[i])
            } else {
                decided[i].0.left()
            }
        }
}

/// A command that is no mode leaves what is remembered of modes.
proof fn lemma_modes_keep_theirs(
    command: Command,
    entity: Entity,
    figures: Figures,
    attempts: Attempts,
    now: u128,
    mode: Seq<char>,
)
    requires
        !(command is HvacMode),
        command is Setpoint ==> command->Setpoint_0 == "temperature"@ || command->Setpoint_0
            == "target_temp_low"@,
    ensures
        command_gate(command, entity, figures, attempts, now).1.last.contains_key(
            write_key(entity.entity_id@, "hvac_mode"@, mode),
        ) == attempts.last.contains_key(write_key(entity.entity_id@, "hvac_mode"@, mode)),
{
    reveal_strlit("hvac_mode");
    reveal_strlit("preset_mode");
    reveal_strlit("temperature");
    reveal_strlit("target_temp_low");
    let id = entity.entity_id@;
    let key = write_key(id, "hvac_mode"@, mode);
    let (what, to) = match command {
        Command::Preset(preset) => ("preset_mode"@, preset),
        Command::Setpoint(field, _) => (field, figures.label@),
        Command::HvacMode(m) => ("hvac_mode"@, m),
    };
    assert(what != "hvac_mode"@) by {
        assert("hvac_mode"@.len() == 9);
    }
    assert(!what.contains(':'));
    assert(!"hvac_mode"@.contains(':'));
    if write_key(id, what, to) == key {
        law_commands_have_their_own_keys(id, what, to, "hvac_mode"@, mode);
    }
}

/// A run reaches its mode: the commands before it do not stop it.
proof fn lemma_run_reaches_mode(
    entity: Entity,
    plan: Seq<Command>,
    m: int,
    mode: Seq<char>,
    points: Seq<(MainRun, Attempts)>,
    decided: Seq<(MainRun, Attempts)>,
    steps: Seq<(Action, Gate)>,
    moments: Seq<u128>,
    accepted: Seq<bool>,
)
    requires
        ran(entity, points, decided, steps, moments, accepted),
        points[0].0.left() == plan,
        0 <= m < plan.len(),
        m <= steps.len(),
        forall|j: int|
            0 <= j < m ==> !(#[trigger] plan[j] is HvacMode) && (plan[j] is Setpoint
                ==> plan[j]->Setpoint_0 == "temperature"@ || plan[j]->Setpoint_0
                == "target_temp_low"@),
    ensures
        points[m].0.left() == plan.skip(m),
        points[m].1.last.contains_key(write_key(entity.entity_id@, "hvac_mode"@, mode))
            == points[0].1.last.contains_key(write_key(entity.entity_id@, "hvac_mode"@, mode)),
    decreases m,
{
    if m == 0 {
        assert(plan.skip(0) =~= plan);
    } else {
        let j = m - 1;
        lemma_run_reaches_mode(
            entity,
            plan,
            j,
            mode,
            points,
            decided,
            steps,
            moments,
            accepted,
        );
        let left = points[j].0.left();
        assert(left[0] == plan[j]);
        assert(steps[j].0@ == plan[j]);
        assert(left.drop_first() =~= plan.skip(m));
        lemma_modes_keep_theirs(
            plan[j],
            entity,
            points[j].0.figures(),
            points[j].1,
            moments[j],
            mode,
        );
    }
}

/// A run that is carried through sends the mode that its demand asks for: `heat` with demand and
/// `off` without, wherever the thermostat reports another mode and no attempt is remembered.
pub proof fn law_run_sends_the_wanted_mode(
    entity: Entity,
    preset: Option<Seq<char>>,
    demand: bool,
    raised: Degrees,
    points: Seq<(MainRun, Attempts)>,
    decided: Seq<(MainRun, Attempts)>,
    steps: Seq<(Action, Gate)>,
    moments: Seq<u128>,
    accepted: Seq<bool>,
    mode: Seq<char>,
)
    requires
        mode == if demand {
            "heat"@
        } else {
            "off"@
        },
        entity.state@ != mode,
        points[0].0.left() == planned(entity, preset, demand, raised),
        !points[0].1.last.contains_key(entity.entity_id@ + ":hvac_mode:"@ + mode),
        ran(entity, points, decided, steps, moments, accepted),
        points.last().0.left().len() == 0,
    ensures
        exists|i: int|
            0 <= i < steps.len() && (#[trigger] steps[i]).0@ == Command::HvacMode(mode)
                && steps[i].1 == (Gate::Send { retry: false }),
{
    let plan = planned(entity, preset, demand, raised);
    let m: int = if demand {
        hold_part(preset).len() as int
    } else {
        plan.len() - 1
    };
    assert(plan[m] == Command::HvacMode(mode));
    assert forall|j: int| 0 <= j < m implies !(#[trigger] plan[j] is HvacMode) && (
    plan[j] is Setpoint ==> plan[j]->Setpoint_0 == "temperature"@ || plan[j]->Setpoint_0
        == "target_temp_low"@) by {
        law_where_the_setpoint_is_found(entity);
    }
    let n: int = if m <= steps.len() {
        m
    } else {
        steps.len() as int
    };
    lemma_run_reaches_mode(entity, plan, n, mode, points, decided, steps, moments, accepted);
    if steps.len() <= m {
        assert(points.last().0.left() == plan.skip(n));
        assert(false);
    }
    reveal_strlit(":");
    reveal_strlit("hvac_mode");
    reveal_strlit(":hvac_mode:");
    let key = entity.entity_id@ + ":hvac_mode:"@ + mode;
    assert(key =~= write_key(entity.entity_id@, "hvac_mode"@, mode));
    law_mode_is_sent_where_it_differs(
        entity.entity_id@,
        entity.state@,
        mode,
        points[m].1,
        moments[m],
        key,
    );
    assert(plan.skip(m)[0] == plan[m]);
    assert(steps[m].0@ == Command::HvacMode(mode));
}

/// A step takes the first command that is left, in the order of the plan, and there is no step
/// exactly when none is left.
pub proof fn law_steps_go_in_order(
    before: (MainRun, Attempts),
    after: (MainRun, Attempts),
    next: Option<(Action, Gate)>,
    entity: Entity,
    now: u128,
)
    requires
        stepped(before, after, next, entity, now),
    ensures
        next is None <==> before.0.left().len() == 0,
        next matches Some((action, gate)) ==> action@ == before.0.left()[0] && (gate, after.1)
            == command_gate(before.0.left()[0], entity, before.0.figures(), before.1, now)
            && after.0.left() == left_after(before.0.left(), gate),
        next is None ==> after.1 == before.1,
        after.0.figures() == before.0.figures(),
{
}

/// A command that the thermostat dropped is sent again by the clock. Once a step has sent the
/// mode, a later step that finds another mode reported sends it as a retry as soon as the
/// interval has passed, whatever the clock reads then; and until then it waits for the rest.
pub proof fn law_dropped_mode_is_sent_again(
    before: (MainRun, Attempts),
    between: (MainRun, Attempts),
    sent: Action,
    retry: bool,
    entity: Entity,
    first: u128,
    throttle: WriteThrottle,
    run: MainRun,
    after: (MainRun, Attempts),
    next: Option<(Action, Gate)>,
    later_entity: Entity,
    second: u128,
    mode: Seq<char>,
    key: Seq<char>,
)
    requires
        stepped(before, between, Some((sent, Gate::Send { retry })), entity, first),
        sent@ == Command::HvacMode(mode),
        key == entity.entity_id@ + ":hvac_mode:"@ + mode,
        throttle@.min_interval == before.1.min_interval,
        throttle@.last.contains_key(key) && throttle@.last[key] == between.1.last[key],
        run.left().len() > 0 && run.left()[0] == Command::HvacMode(mode),
        later_entity.entity_id@ == entity.entity_id@,
        later_entity.state@ != mode,
        throttle.clock_gives(second),
        stepped((run, throttle@), after, next, later_entity, second),
    ensures
        throttle.latest() >= first + before.1.min_interval ==> (next matches Some((action, gate))
            && action@ == Command::HvacMode(mode) && gate == (Gate::Send { retry: true })),
        second >= first + before.1.min_interval ==> (next matches Some((action, gate)) && gate == (
        Gate::Send { retry: true })),
        first <= second < first + before.1.min_interval ==> (next matches Some((action, gate))
            && gate == (Gate::Wait {
            nanos: (first + before.1.min_interval - second) as u128,
        })),
{
    law_mode_is_sent_where_it_differs(
        entity.entity_id@,
        entity.state@,
        mode,
        before.1,
        first,
        key,
    );
    law_mode_is_sent_where_it_differs(
        later_entity.entity_id@,
        later_entity.state@,
        mode,
        throttle@,
        second,
        key,
    );
}

/// The hold is the preset of the configuration, whatever its name, and there is none where the
/// configuration gives none.
pub proof fn law_hold_is_as_configured(config: Config)
    ensures
        config.preset_mode matches Some(preset) ==> wanted_preset(config) == Some(preset@),
        config.preset_mode is None ==> wanted_preset(config) is None,
{
}

/// A list of actions stands for the commands that they spell out, one for one.
pub proof fn law_actions_stand_for_their_commands(actions: Seq<Action>, i: int)
    requires
        0 <= i < actions.len(),
    ensures
        action_views(actions).len() == actions.len(),
        match actions[i] {
            Action::Preset(preset) => action_views(actions)[i] == Command::Preset(preset@),
            Action::HvacMode(mode) => action_views(actions)[i] == Command::HvacMode(mode@),
            Action::Setpoint { field, value } => action_views(actions)[i] == Command::Setpoint(
                field@,
                value,
            ),
        },
{
}

} // verus!
