//! The zones: the margin around a setpoint, and the pumps.

use thermostat_linker::config::{Config, HaConfig};
use thermostat_linker::degrees::Degrees;
use thermostat_linker::entity::Entity;
use thermostat_linker::states::States;
use thermostat_linker::table::Table;
use thermostat_linker::throttle::WriteThrottle;
use thermostat_linker::writes::Gate;
use thermostat_linker::zones::{
    apply_pump, calls_for_heat as judge_reading, judge, survey_zone, Band, Fault, PumpOutcome,
    Sample, Verdict, ZonePass,
};

const SEC: u128 = 1_000_000_000;

fn deg(value: f64) -> Degrees {
    Degrees::from_bits(value.to_bits())
}

fn band(setpoint: f64, hysteresis: f64) -> Band {
    Band {
        low: deg(setpoint - hysteresis),
        high: deg(setpoint + hysteresis),
    }
}

fn calls_for_heat(current: f64, setpoint: f64, hysteresis: f64, previous: bool) -> bool {
    judge_reading(deg(current), band(setpoint, hysteresis), previous)
}

fn entity(id: &str, state: &str, attributes: &str) -> Entity {
    Entity {
        entity_id: id.to_string(),
        state: state.to_string(),
        attributes: serde_json::from_str(attributes).unwrap(),
    }
}

fn thermostat(id: &str, current: f64, setpoint: f64) -> Entity {
    entity(
        id,
        "heat",
        &format!(r#"{{ "current_temperature": {current}, "temperature": {setpoint} }}"#),
    )
}

fn config(zones: Table<Vec<String>>) -> Config {
    Config {
        main: "climate.test".to_string(),
        temp_increment: deg(0.5),
        preset_mode: None,
        hysteresis: deg(0.2),
        dry_run: false,
        poll_interval: 30,
        min_write_interval: 300,
        home_assistant: HaConfig {
            baselink: "http://localhost:8123".to_string(),
            token_env: None,
            token_command: None,
            token_file: None,
            token: None,
        },
        zones,
    }
}

fn zone(patterns: &[&str]) -> Vec<String> {
    patterns.iter().map(|p| p.to_string()).collect()
}

#[test]
fn margin_turns_on_well_below_setpoint() {
    assert!(calls_for_heat(18.0, 20.0, 0.2, false));
}

#[test]
fn margin_turns_off_well_above_setpoint() {
    assert!(!calls_for_heat(22.0, 20.0, 0.2, true));
}

#[test]
fn margin_holds_previous_state_inside_the_band() {
    // Inside [19.8, 20.2] the previous decision must be preserved, which is
    // what stops the pump chattering at the setpoint.
    assert!(calls_for_heat(19.9, 20.0, 0.2, true));
    assert!(!calls_for_heat(19.9, 20.0, 0.2, false));
    assert!(calls_for_heat(20.1, 20.0, 0.2, true));
    assert!(!calls_for_heat(20.1, 20.0, 0.2, false));
}

#[test]
fn margin_is_symmetric_around_the_setpoint() {
    assert!(!calls_for_heat(19.8, 20.0, 0.2, false));
    assert!(calls_for_heat(19.79, 20.0, 0.2, false));
    assert!(calls_for_heat(20.2, 20.0, 0.2, true));
    assert!(!calls_for_heat(20.21, 20.0, 0.2, true));
}

#[test]
fn zero_hysteresis_is_a_plain_threshold() {
    assert!(calls_for_heat(19.9, 20.0, 0.0, false));
    assert!(!calls_for_heat(20.1, 20.0, 0.0, true));
}

#[test]
fn a_margin_that_is_no_number_holds_the_previous_state() {
    assert!(calls_for_heat(-50.0, 20.0, f64::NAN, true));
    assert!(!calls_for_heat(-50.0, 20.0, f64::NAN, false));
    assert!(!calls_for_heat(-50.0, 20.0, f64::INFINITY, false));
}

#[test]
fn temperatures_are_ordered_as_floating_point_numbers() {
    let values = [
        f64::NAN,
        -f64::NAN,
        f64::INFINITY,
        f64::NEG_INFINITY,
        0.0,
        -0.0,
        5e-324,
        -5e-324,
        f64::MIN_POSITIVE,
        f64::MAX,
        f64::MIN,
        19.8,
        20.0 - 0.2,
        -19.8,
        0.05,
    ];
    for a in values {
        for b in values {
            assert_eq!(deg(a).lt(deg(b)), a < b, "{a} < {b}");
            assert_eq!(deg(a).le(deg(b)), a <= b, "{a} <= {b}");
        }
    }
}

#[test]
fn a_survey_tells_samples_from_faults() {
    let states = States::new(vec![
        thermostat("climate.hall_2", 18.5, 20.0),
        thermostat("climate.hall_1", 21.0, 20.0),
        entity("climate.hall_3", "unavailable", "{}"),
        entity("climate.hall_4", "heat", r#"{ "current_temperature": 19 }"#),
    ]);
    let survey = survey_zone(&states, &zone(&["climate.hall*", "climate.kitchen*", "climate.hall_1"]));
    let samples: Vec<(&str, Degrees, Degrees)> = survey
        .samples
        .iter()
        .map(|s| (s.entity_id.as_str(), s.current, s.setpoint))
        .collect();
    assert_eq!(
        samples,
        vec![
            ("climate.hall_1", deg(21.0), deg(20.0)),
            ("climate.hall_2", deg(18.5), deg(20.0)),
            ("climate.hall_1", deg(21.0), deg(20.0)),
        ]
    );
    assert_eq!(survey.faults.len(), 3);
    assert!(
        matches!(&survey.faults[0], Fault::Unavailable { entity_id, state }
            if entity_id == "climate.hall_3" && state == "unavailable")
    );
    assert!(
        matches!(&survey.faults[1], Fault::Incomplete { entity_id } if entity_id == "climate.hall_4")
    );
    assert!(
        matches!(&survey.faults[2], Fault::NoMatch { pattern } if pattern == "climate.kitchen*")
    );
}

#[test]
fn decisions_are_remembered_between_polls() {
    let sample = |id: &str, current: f64| Sample {
        entity_id: id.to_string(),
        current: deg(current),
        setpoint: deg(20.0),
    };
    let mut calling: Table<bool> = Table::new();
    let bands = vec![band(20.0, 0.2), band(20.0, 0.2)];
    let cold = vec![sample("climate.a", 19.0), sample("climate.b", 20.0)];
    assert_eq!(
        judge(&cold, &bands, &mut calling),
        vec![
            Verdict {
                now: true,
                previous: false
            },
            Verdict {
                now: false,
                previous: false
            },
        ]
    );
    let mild = vec![sample("climate.a", 20.1), sample("climate.b", 20.1)];
    assert_eq!(
        judge(&mild, &bands, &mut calling),
        vec![
            Verdict {
                now: true,
                previous: true
            },
            Verdict {
                now: false,
                previous: false
            },
        ]
    );
    let warm = vec![sample("climate.a", 20.3)];
    assert_eq!(
        judge(&warm, &vec![band(20.0, 0.2)], &mut calling),
        vec![Verdict {
            now: false,
            previous: true
        }]
    );
    assert_eq!(calling.get("climate.a"), Some(&false));
    assert_eq!(calling.get("climate.b"), Some(&false));
    assert_eq!(calling.get("climate.c"), None);
}

#[test]
fn a_pump_is_switched_until_it_is_as_wanted() {
    let mut throttle = WriteThrottle::new(300);
    let off = States::new(vec![entity("switch.pomp_washok", "off", "{}")]);
    let on = States::new(vec![entity("switch.pomp_washok", "on", "{}")]);
    let gate = |states: &States, want_on: bool, throttle: &mut WriteThrottle, now: u128| match apply_pump(
        states,
        "pomp_washok",
        want_on,
        throttle,
        now,
    ) {
        PumpOutcome::Decided {
            entity_id, gate, ..
        } => {
            assert_eq!(entity_id, "switch.pomp_washok");
            gate
        }
        other => panic!("{other:?}"),
    };
    assert_eq!(gate(&off, true, &mut throttle, 0), Gate::Send { retry: false });
    assert!(throttle.attempted("switch.pomp_washok:true"));
    assert_eq!(
        gate(&off, true, &mut throttle, SEC),
        Gate::Wait { nanos: 299 * SEC }
    );
    assert_eq!(
        gate(&off, true, &mut throttle, 300 * SEC),
        Gate::Send { retry: true }
    );
    assert_eq!(gate(&on, true, &mut throttle, 301 * SEC), Gate::Settled);
    assert!(!throttle.attempted("switch.pomp_washok:true"));
    assert_eq!(
        gate(&on, false, &mut throttle, 302 * SEC),
        Gate::Send { retry: false }
    );
    assert!(throttle.attempted("switch.pomp_washok:false"));
    assert_eq!(gate(&off, false, &mut throttle, 303 * SEC), Gate::Settled);
}

#[test]
fn a_pump_that_is_not_the_only_one_is_skipped() {
    let mut throttle = WriteThrottle::new(300);
    let states = States::new(vec![
        entity("switch.pomp_a", "off", "{}"),
        entity("switch.pomp_b", "unknown", "{}"),
    ]);
    match apply_pump(&states, "switch.pomp*", true, &mut throttle, 0) {
        PumpOutcome::Ambiguous { pattern, ids } => {
            assert_eq!(pattern, "switch.pomp*");
            assert_eq!(ids, vec!["switch.pomp_a", "switch.pomp_b"]);
        }
        other => panic!("{other:?}"),
    }
    match apply_pump(&states, "boven", true, &mut throttle, 0) {
        PumpOutcome::NoMatch { pattern } => assert_eq!(pattern, "switch.boven"),
        other => panic!("{other:?}"),
    }
    match apply_pump(&states, "pomp_b", true, &mut throttle, 0) {
        PumpOutcome::Unavailable { entity_id, state } => {
            assert_eq!(entity_id, "switch.pomp_b");
            assert_eq!(state, "unknown");
        }
        other => panic!("{other:?}"),
    }
    assert!(!throttle.attempted("switch.pomp_b:true"));
}

#[test]
fn a_pass_takes_the_zones_in_the_order_of_their_pumps() {
    let mut zones = Table::new();
    zones.insert("pomp_c".to_string(), zone(&["climate.c"]));
    zones.insert("pomp_a".to_string(), zone(&["climate.a"]));
    zones.insert("pomp_b".to_string(), zone(&["climate.b", "climate.c"]));
    let config = config(zones);
    let states = States::new(vec![
        thermostat("climate.a", 21.0, 20.0),
        thermostat("climate.b", 21.0, 20.0),
        thermostat("climate.c", 19.0, 20.0),
        entity("switch.pomp_a", "on", "{}"),
        entity("switch.pomp_b", "off", "{}"),
    ]);
    let mut calling: Table<bool> = Table::new();
    let mut throttle = WriteThrottle::new(300);
    let mut pass = ZonePass::new();
    let mut seen = Vec::new();
    while let Some(survey) = pass.survey(&config, &states) {
        let pump = pass.pump(&config).unwrap().clone();
        let bands: Vec<Band> = survey.samples.iter().map(|_| band(20.0, 0.2)).collect();
        let report = pass.settle(&config, &states, &survey, &bands, &mut calling, &mut throttle);
        let sent = matches!(
            report.outcome,
            PumpOutcome::Decided {
                gate: Gate::Send { .. },
                ..
            }
        );
        seen.push((pump, report.want_on, sent, pass.demand()));
    }
    assert_eq!(
        seen,
        vec![
            ("pomp_a".to_string(), false, true, false),
            ("pomp_b".to_string(), true, true, true),
            ("pomp_c".to_string(), true, false, true),
        ]
    );
    assert!(pass.pump(&config).is_none());
}

#[test]
fn a_pass_at_a_given_moment_uses_that_moment() {
    let mut zones = Table::new();
    zones.insert("pomp_a".to_string(), zone(&["climate.a"]));
    let config = config(zones);
    let states = States::new(vec![
        thermostat("climate.a", 19.0, 20.0),
        entity("switch.pomp_a", "off", "{}"),
    ]);
    let mut calling: Table<bool> = Table::new();
    let mut throttle = WriteThrottle::new(300);
    let bands = vec![band(20.0, 0.2)];
    let mut gates = Vec::new();
    for now in [0, 10 * SEC, 300 * SEC] {
        let mut pass = ZonePass::new();
        let survey = pass.survey(&config, &states).unwrap();
        let report =
            pass.settle_at(&config, &states, &survey, &bands, &mut calling, &mut throttle, now);
        match report.outcome {
            PumpOutcome::Decided { gate, .. } => gates.push(gate),
            other => panic!("{other:?}"),
        }
    }
    assert_eq!(
        gates,
        vec![
            Gate::Send { retry: false },
            Gate::Wait { nanos: 290 * SEC },
            Gate::Send { retry: true },
        ]
    );
}

#[test]
fn a_thermostat_of_two_zones_decides_once_in_a_poll() {
    let mut zones = Table::new();
    zones.insert("pomp_a".to_string(), zone(&["climate.shared"]));
    zones.insert("pomp_b".to_string(), zone(&["climate.*"]));
    let config = config(zones);
    let mut calling: Table<bool> = Table::new();
    calling.insert("climate.away".to_string(), true);
    let mut throttle = WriteThrottle::new(300);
    let mut polls = Vec::new();
    for current in [19.9, 19.0, 20.1, 20.3, 20.1] {
        let states = States::new(vec![
            thermostat("climate.shared", current, 20.0),
            thermostat("climate.warm", 25.0, 20.0),
        ]);
        let mut pass = ZonePass::new();
        let mut wanted = Vec::new();
        while let Some(survey) = pass.survey(&config, &states) {
            let bands: Vec<Band> = survey.samples.iter().map(|_| band(20.0, 0.2)).collect();
            let report =
                pass.settle(&config, &states, &survey, &bands, &mut calling, &mut throttle);
            wanted.push(report.want_on);
        }
        assert_eq!(calling.get("climate.shared"), Some(&pass.demand()));
        assert_eq!(calling.get("climate.warm"), Some(&false));
        polls.push((wanted, pass.demand()));
    }
    assert_eq!(
        polls,
        vec![
            (vec![false, false], false),
            (vec![true, true], true),
            (vec![true, true], true),
            (vec![false, false], false),
            (vec![false, false], false),
        ]
    );
    assert_eq!(calling.get("climate.away"), Some(&true));
}
