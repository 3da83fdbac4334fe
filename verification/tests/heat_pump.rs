//! The main thermostat: the plan of commands, and the run that sends them.

use thermostat_linker::config::{Config, HaConfig};
use thermostat_linker::degrees::Degrees;
use thermostat_linker::entity::Entity;
use thermostat_linker::heat_pump::{
    ensure_hvac_mode, ensure_preset_mode, ensure_setpoint, plan_main, select_main, setpoint_field,
    target_setpoint, Action, Figures, MainRun,
};
use thermostat_linker::home_assistant::{Field, HomeAssistant};
use thermostat_linker::states::{Pick, States};
use thermostat_linker::table::Table;
use thermostat_linker::throttle::WriteThrottle;
use thermostat_linker::writes::Gate;

const SEC: u128 = 1_000_000_000;

fn deg(value: f64) -> Degrees {
    Degrees::from_bits(value.to_bits())
}

fn config(temp_increment: f64, preset_mode: Option<&str>) -> Config {
    Config {
        main: "climate.test".to_string(),
        temp_increment: deg(temp_increment),
        preset_mode: preset_mode.map(|p| p.to_string()),
        hysteresis: deg(0.2),
        dry_run: false,
        poll_interval: 30,
        min_write_interval: 300,
        home_assistant: HaConfig {
            baselink: "http://localhost:8123".to_string(),
            token_env: None,
            token_command: None,
            token_file: None,
            token: None,
        },
        zones: Table::new(),
    }
}

fn config_with(temp_increment: f64) -> Config {
    config(temp_increment, None)
}

fn config_held(temp_increment: f64) -> Config {
    config(temp_increment, Some("PermanentHold"))
}

fn entity(state: &str, attributes: &str) -> Entity {
    Entity {
        entity_id: "climate.test".to_string(),
        state: state.to_string(),
        attributes: serde_json::from_str(attributes).unwrap(),
    }
}

fn lyric(mode: &str, preset: &str) -> Entity {
    entity(
        mode,
        &format!(
            r#"{{
                "min_temp": 5.0,
                "max_temp": 35.0,
                "current_temperature": 20.0,
                "preset_mode": "{preset}",
                "preset_modes": ["NoHold", "PermanentHold", "TemporaryHold"]
            }}"#
        ),
    )
}

fn plan(ent: &Entity, config: &Config, demand: bool) -> Vec<Action> {
    let increment = f64::from_bits(config.temp_increment.bits);
    let current = ent
        .attr_f64("current_temperature")
        .map_or(f64::NAN, |c| f64::from_bits(c.bits));
    plan_main(ent, config, demand, deg(current + increment))
}

fn figures(raised: f64, gap: f64) -> Figures {
    Figures {
        raised: deg(raised),
        gap: deg(gap),
        label: format!("{raised:.1}"),
    }
}

#[test]
fn calling_for_heat_targets_measured_plus_increment() {
    let cfg = config_with(0.5);
    let increment = f64::from_bits(cfg.temp_increment.bits);
    assert_eq!(
        target_setpoint(deg(20.0), deg(20.0 + increment), true),
        deg(20.5)
    );
    assert_eq!(
        target_setpoint(deg(21.4), deg(21.4 + increment), true),
        deg(21.9)
    );
}

#[test]
fn idle_targets_the_measured_temperature_itself() {
    // Idling is just asking the thermostat for exactly what it already has.
    let cfg = config_with(0.5);
    let increment = f64::from_bits(cfg.temp_increment.bits);
    assert_eq!(
        target_setpoint(deg(20.0), deg(20.0 + increment), false),
        deg(20.0)
    );
    assert_eq!(
        target_setpoint(deg(21.4), deg(21.4 + increment), false),
        deg(21.4)
    );
}

#[test]
fn turning_on_holds_then_sets_mode_then_setpoint() {
    // A setpoint that is written first, while the thermostat is still off, is discarded.
    let plan = plan(&lyric("off", "TemporaryHold"), &config_held(0.5), true);
    assert_eq!(
        plan,
        vec![
            Action::Preset("PermanentHold".to_string()),
            Action::HvacMode("heat".to_string()),
            Action::Setpoint {
                field: "temperature",
                value: deg(20.5)
            },
        ]
    );
}

#[test]
fn going_idle_sets_the_measured_temperature_then_switches_off() {
    // Mirror image: the setpoint only applies while the thermostat is still
    // on, and idling means asking it for exactly what it already measures.
    let plan = plan(&lyric("heat", "PermanentHold"), &config_held(0.5), false);
    assert_eq!(
        plan,
        vec![
            Action::Preset("PermanentHold".to_string()),
            Action::Setpoint {
                field: "temperature",
                value: deg(20.0)
            },
            Action::HvacMode("off".to_string()),
        ]
    );
}

#[test]
fn already_off_only_keeps_the_hold() {
    let plan = plan(&lyric("off", "PermanentHold"), &config_held(0.5), false);
    assert_eq!(
        plan,
        vec![
            Action::Preset("PermanentHold".to_string()),
            Action::HvacMode("off".to_string()),
        ]
    );
}

#[test]
fn no_preset_configured_emits_no_preset_action() {
    let cfg = config_with(0.5);
    let plan = plan(&lyric("heat", "TemporaryHold"), &cfg, true);
    assert!(!plan.iter().any(|a| matches!(a, Action::Preset(_))));
    assert_eq!(plan[0], Action::HvacMode("heat".to_string()));
}

#[test]
fn without_a_measured_temperature_no_setpoint_is_planned() {
    let ent = entity("heat", r#"{ "current_temperature": "20.0" }"#);
    assert_eq!(
        plan(&ent, &config_with(0.5), true),
        vec![Action::HvacMode("heat".to_string())]
    );
    assert_eq!(
        plan(&ent, &config_with(0.5), false),
        vec![Action::HvacMode("off".to_string())]
    );
}

#[test]
fn the_setpoint_is_found_under_either_name() {
    let single = entity("heat", r#"{ "temperature": 21, "target_temp_low": 19.5 }"#);
    assert_eq!(setpoint_field(&single), ("temperature", Some(deg(21.0))));
    let dual = entity(
        "heat_cool",
        r#"{ "temperature": null, "target_temp_low": 19.5, "target_temp_high": 24 }"#,
    );
    assert_eq!(setpoint_field(&dual), ("target_temp_low", Some(deg(19.5))));
    let none = entity("off", r#"{ "temperature": null }"#);
    assert_eq!(setpoint_field(&none), ("temperature", None));

    let mut dual_plan = plan(
        &entity(
            "auto",
            r#"{ "current_temperature": -3, "target_temp_low": 19.5 }"#,
        ),
        &config_with(1.0),
        true,
    );
    assert_eq!(
        dual_plan.pop(),
        Some(Action::Setpoint {
            field: "target_temp_low",
            value: deg(-2.0)
        })
    );
}

#[test]
fn entity_attributes_are_read_by_their_kind() {
    let ent = lyric("heat", "NoHold");
    assert_eq!(ent.attr_f64("min_temp"), Some(deg(5.0)));
    assert_eq!(ent.attr_f64("preset_mode"), None);
    assert_eq!(ent.attr_f64("missing"), None);
    assert_eq!(ent.attr_str("preset_mode"), Some("NoHold"));
    assert_eq!(ent.attr_str("min_temp"), None);
    assert_eq!(ent.attr_str("missing"), None);
    assert_eq!(
        ent.preset_modes(),
        vec!["NoHold", "PermanentHold", "TemporaryHold"]
    );
    assert_eq!(ent.hvac_mode(), "heat");
    let mixed = entity("heat", r#"{ "preset_modes": [1, "a", null, "b", ["c"]] }"#);
    assert_eq!(mixed.preset_modes(), vec!["a", "b"]);
    assert!(entity("heat", r#"{ "preset_modes": "a" }"#)
        .preset_modes()
        .is_empty());
    assert!(entity("heat", "[1, 2]").preset_modes().is_empty());
}

#[test]
fn entities_are_available_unless_reported_otherwise() {
    assert!(entity("off", "{}").is_available());
    assert!(entity("Unknown", "{}").is_available());
    assert!(!entity("unavailable", "{}").is_available());
    assert!(!entity("unknown", "{}").is_available());
}

#[test]
fn the_mode_is_sent_until_it_is_reported() {
    let mut throttle = WriteThrottle::new(300);
    let id = "climate.test";
    assert_eq!(
        ensure_hvac_mode(id, "off", "heat", &mut throttle, 0),
        Gate::Send { retry: false }
    );
    assert!(throttle.attempted("climate.test:hvac_mode:heat"));
    assert_eq!(
        ensure_hvac_mode(id, "off", "heat", &mut throttle, 100 * SEC),
        Gate::Wait { nanos: 200 * SEC }
    );
    assert_eq!(
        ensure_hvac_mode(id, "off", "heat", &mut throttle, 300 * SEC),
        Gate::Send { retry: true }
    );
    assert_eq!(
        ensure_hvac_mode(id, "heat", "heat", &mut throttle, 301 * SEC),
        Gate::Settled
    );
    assert!(!throttle.attempted("climate.test:hvac_mode:heat"));
    assert_eq!(
        ensure_hvac_mode(id, "off", "heat", &mut throttle, 302 * SEC),
        Gate::Send { retry: false }
    );
}

#[test]
fn a_setpoint_within_the_tolerance_is_settled() {
    let mut throttle = WriteThrottle::new(300);
    let id = "climate.test";
    let actual = Some(deg(20.0));
    let close = (20.0_f64 - 20.04).abs();
    assert_eq!(
        ensure_setpoint(id, "temperature", actual, deg(close), "20.0", &mut throttle, 0),
        Gate::Settled
    );
    assert_eq!(
        ensure_setpoint(id, "temperature", actual, deg(0.05), "20.0", &mut throttle, 0),
        Gate::Settled
    );
    assert_eq!(
        ensure_setpoint(id, "temperature", actual, deg(0.051), "20.1", &mut throttle, 0),
        Gate::Send { retry: false }
    );
    assert!(throttle.attempted("climate.test:temperature:20.1"));
    assert_eq!(
        ensure_setpoint(id, "temperature", None, deg(0.0), "20.2", &mut throttle, 0),
        Gate::Send { retry: false }
    );
    assert_eq!(
        ensure_setpoint(id, "temperature", actual, deg(f64::NAN), "NaN", &mut throttle, 0),
        Gate::Send { retry: false }
    );
}

#[test]
fn a_preset_is_sent_where_it_is_supported() {
    let mut throttle = WriteThrottle::new(300);
    let ent = lyric("heat", "TemporaryHold");
    assert_eq!(
        ensure_preset_mode(&ent, "VacationHold", &mut throttle, 0),
        Gate::Unsupported
    );
    assert!(!throttle.attempted("climate.test:preset_mode:VacationHold"));
    assert_eq!(
        ensure_preset_mode(&ent, "PermanentHold", &mut throttle, 0),
        Gate::Send { retry: false }
    );
    assert!(throttle.attempted("climate.test:preset_mode:PermanentHold"));
    assert_eq!(
        ensure_preset_mode(&ent, "TemporaryHold", &mut throttle, 0),
        Gate::Settled
    );
    let silent = entity("heat", "{}");
    assert_eq!(
        ensure_preset_mode(&silent, "VacationHold", &mut throttle, 0),
        Gate::Send { retry: false }
    );
    assert_eq!(
        ensure_preset_mode(&silent, "unknown", &mut throttle, 0),
        Gate::Settled
    );
}

#[test]
fn a_run_sends_the_plan_in_order() {
    let mut throttle = WriteThrottle::new(300);
    let ent = lyric("off", "TemporaryHold");
    let mut run = MainRun::new(&ent, &config_held(0.5), true, figures(20.5, f64::NAN));
    let ha = HomeAssistant::new("http://localhost:8123", String::new(), false);
    let mut services = Vec::new();
    while let Some((action, gate)) = run.step(&ent, &mut throttle) {
        assert_eq!(gate, Gate::Send { retry: false });
        let call = action.call(&ha, "climate.test");
        assert_eq!(call.domain, "climate");
        assert_eq!(call.data[0].0, "entity_id");
        assert!(matches!(&call.data[0].1, Field::Text(id) if id == "climate.test"));
        services.push((call.service, call.data[1].0));
        if let Field::Number(value) = &call.data[1].1 {
            assert_eq!(*value, deg(20.5));
        }
        run.reply(&action, true);
    }
    assert_eq!(
        services,
        vec![
            ("set_preset_mode", "preset_mode"),
            ("set_hvac_mode", "hvac_mode"),
            ("set_temperature", "temperature"),
        ]
    );
}

#[test]
fn a_run_ends_where_the_mode_is_not_accepted() {
    let mut throttle = WriteThrottle::new(300);
    let ent = lyric("off", "PermanentHold");
    let mut run = MainRun::new(&ent, &config_held(0.5), true, figures(20.5, f64::NAN));
    let (hold, gate) = run.step_at(&ent, &mut throttle, 0).unwrap();
    assert_eq!(hold, Action::Preset("PermanentHold".to_string()));
    assert_eq!(gate, Gate::Settled);
    let (mode, gate) = run.step_at(&ent, &mut throttle, 0).unwrap();
    assert_eq!(mode, Action::HvacMode("heat".to_string()));
    assert_eq!(gate, Gate::Send { retry: false });
    run.reply(&mode, false);
    assert!(run.step_at(&ent, &mut throttle, 0).is_none());

    // The next poll comes too early for the mode, so the setpoint waits with it.
    let mut run = MainRun::new(&ent, &config_with(0.5), true, figures(20.5, f64::NAN));
    let (_, gate) = run.step_at(&ent, &mut throttle, 30 * SEC).unwrap();
    assert_eq!(gate, Gate::Wait { nanos: 270 * SEC });
    assert!(run.step_at(&ent, &mut throttle, 30 * SEC).is_none());

    // Once the interval has passed, both are sent.
    let mut run = MainRun::new(&ent, &config_with(0.5), true, figures(20.5, f64::NAN));
    let (mode, gate) = run.step_at(&ent, &mut throttle, 300 * SEC).unwrap();
    assert_eq!(gate, Gate::Send { retry: true });
    run.reply(&mode, true);
    let (setpoint, gate) = run.step_at(&ent, &mut throttle, 300 * SEC).unwrap();
    assert!(matches!(setpoint, Action::Setpoint { .. }));
    assert_eq!(gate, Gate::Send { retry: false });
}

#[test]
fn a_refused_preset_or_setpoint_does_not_end_a_run() {
    let mut throttle = WriteThrottle::new(300);
    let ent = lyric("heat", "TemporaryHold");
    let mut run = MainRun::new(&ent, &config_held(0.5), false, figures(20.5, 1.0));
    let (hold, gate) = run.step_at(&ent, &mut throttle, 0).unwrap();
    assert_eq!(gate, Gate::Send { retry: false });
    run.reply(&hold, false);
    let (setpoint, gate) = run.step_at(&ent, &mut throttle, 0).unwrap();
    assert_eq!(gate, Gate::Send { retry: false });
    run.reply(&setpoint, false);
    let (mode, _) = run.step_at(&ent, &mut throttle, 0).unwrap();
    assert_eq!(mode, Action::HvacMode("off".to_string()));
}

#[test]
fn a_steady_thermostat_is_sent_nothing() {
    let mut throttle = WriteThrottle::new(0);
    let ent = entity(
        "heat",
        r#"{ "current_temperature": 20.0, "temperature": 20.5, "preset_mode": "PermanentHold" }"#,
    );
    let mut run = MainRun::new(&ent, &config_held(0.5), true, figures(20.5, 0.0));
    let mut steps = 0;
    while let Some((_, gate)) = run.step(&ent, &mut throttle) {
        assert_eq!(gate, Gate::Settled);
        steps += 1;
    }
    assert_eq!(steps, 3);
}

#[test]
fn the_main_thermostat_has_to_be_found() {
    let config = config_with(0.5);
    let none = States::new(Vec::new());
    assert!(matches!(select_main(&none, &config), Pick::NoMatch));
    let one = States::new(vec![lyric("off", "NoHold")]);
    match select_main(&one, &config) {
        Pick::Ready(e) => assert_eq!(e.entity_id, "climate.test"),
        other => panic!("{other:?}"),
    }
}
