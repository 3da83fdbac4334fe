//! The requests that are made of Home Assistant.

use thermostat_linker::degrees::Degrees;
use thermostat_linker::entity::Entity;
use thermostat_linker::home_assistant::{Dispatch, Field, HomeAssistant, Refusal, ServiceCall};
use thermostat_linker::states::resolve;

fn ha(base: &str, dry_run: bool) -> HomeAssistant {
    HomeAssistant::new(base, "secret".to_string(), dry_run)
}

fn data(call: &ServiceCall) -> Vec<(String, String)> {
    call.data
        .iter()
        .map(|(name, field)| {
            let value = match field {
                Field::Text(text) => text.clone(),
                Field::Number(degrees) => f64::from_bits(degrees.bits).to_string(),
            };
            (name.to_string(), value)
        })
        .collect()
}

fn pairs(expected: &[(&str, &str)]) -> Vec<(String, String)> {
    expected
        .iter()
        .map(|(a, b)| (a.to_string(), b.to_string()))
        .collect()
}

#[test]
fn urls_are_built_on_a_base_without_slashes_at_its_end() {
    for base in ["http://ha:8123", "http://ha:8123/", "http://ha:8123///"] {
        let ha = ha(base, false);
        assert_eq!(ha.ping_url(), "http://ha:8123/api/");
        assert_eq!(ha.states_url(), "http://ha:8123/api/states");
        assert_eq!(
            ha.service_url("climate", "set_hvac_mode"),
            "http://ha:8123/api/services/climate/set_hvac_mode"
        );
        assert_eq!(ha.token(), "secret");
    }
    assert_eq!(ha("//", false).ping_url(), "/api/");
}

#[test]
fn statuses_mean_success_or_refusal() {
    let ha = ha("http://ha", false);
    assert_eq!(ha.ping(200), Ok(()));
    assert_eq!(ha.ping(299), Ok(()));
    assert_eq!(ha.ping(199), Err(Refusal::Failed));
    assert_eq!(ha.ping(300), Err(Refusal::Failed));
    assert_eq!(ha.ping(401), Err(Refusal::Unauthorized));
    assert_eq!(ha.ping(500), Err(Refusal::Failed));
    assert!(ha.service_accepted(201));
    assert!(!ha.service_accepted(401));
    assert!(!ha.service_accepted(404));
}

#[test]
fn entities_are_filed_where_the_answer_is_a_success() {
    let ha = ha("http://ha", false);
    let list = || {
        vec![Entity {
            entity_id: "switch.a".to_string(),
            state: "on".to_string(),
            attributes: serde_json::Value::Null,
        }]
    };
    let states = ha.states(200, list()).unwrap();
    assert_eq!(resolve(&states, "switch.a").len(), 1);
    assert!(matches!(ha.states(401, list()), Err(Refusal::Unauthorized)));
    assert!(matches!(ha.states(502, list()), Err(Refusal::Failed)));
}

#[test]
fn service_calls_carry_what_the_service_needs() {
    let ha = ha("http://ha", false);
    let call = ha.set_hvac_mode("climate.a", "heat");
    assert_eq!((call.domain, call.service), ("climate", "set_hvac_mode"));
    assert_eq!(
        data(&call),
        pairs(&[("entity_id", "climate.a"), ("hvac_mode", "heat")])
    );
    let call = ha.set_preset_mode("climate.a", "PermanentHold");
    assert_eq!((call.domain, call.service), ("climate", "set_preset_mode"));
    assert_eq!(
        data(&call),
        pairs(&[("entity_id", "climate.a"), ("preset_mode", "PermanentHold")])
    );
    let value = Degrees::from_bits(20.5_f64.to_bits());
    let call = ha.set_temperature("climate.a", "target_temp_low", value);
    assert_eq!((call.domain, call.service), ("climate", "set_temperature"));
    assert_eq!(
        data(&call),
        pairs(&[("entity_id", "climate.a"), ("target_temp_low", "20.5")])
    );
    let call = ha.switch("switch.a", true);
    assert_eq!((call.domain, call.service), ("switch", "turn_on"));
    assert_eq!(data(&call), pairs(&[("entity_id", "switch.a")]));
    assert_eq!(ha.switch("switch.a", false).service, "turn_off");
}

#[test]
fn a_dry_run_makes_no_call() {
    assert!(ha("http://ha", true).dry_run);
    assert!(!ha("http://ha", false).dry_run);
    let call = ha("http://ha", true).switch("switch.a", true);
    assert!(matches!(
        ha("http://ha", true).call_service(&call),
        Dispatch::DryRun
    ));
    match ha("http://ha/", false).call_service(&call) {
        Dispatch::Post(url) => assert_eq!(url, "http://ha/api/services/switch/turn_on"),
        other => panic!("{other:?}"),
    }
}
