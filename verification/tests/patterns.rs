//! Entity patterns: what they fit, and what they select among the entities of a poll.

use thermostat_linker::entity::Entity;
use thermostat_linker::glob::glob_match;
use thermostat_linker::states::{pick, resolve, Pick, States};

fn entity(id: &str, state: &str, attributes: &str) -> Entity {
    Entity {
        entity_id: id.to_string(),
        state: state.to_string(),
        attributes: serde_json::from_str(attributes).unwrap(),
    }
}

fn ids(states: &States, pattern: &str) -> Vec<String> {
    resolve(states, pattern)
        .iter()
        .map(|e| e.entity_id.clone())
        .collect()
}

#[test]
fn glob_without_star_is_an_exact_match() {
    assert!(glob_match("switch.pomp_washok", "switch.pomp_washok"));
    assert!(!glob_match("switch.pomp_washok", "switch.pomp_washok_none"));
}

#[test]
fn glob_matches_renamed_entities() {
    assert!(glob_match("switch.pomp_washok*", "switch.pomp_washok_none"));
    assert!(glob_match("switch.*washok*", "switch.pomp_washok_none"));
    assert!(glob_match(
        "switch.*achterhuis*pomp*",
        "switch.stekkerschakelaar_achterhuis_pomp_none"
    ));
}

#[test]
fn glob_is_case_insensitive_and_anchored() {
    assert!(glob_match("SWITCH.*Washok*", "switch.pomp_washok_none"));
    assert!(!glob_match("switch.*washok", "switch.pomp_washok_none"));
    assert!(!glob_match("*boven*", "switch.pomp_washok_none"));
    assert!(glob_match("*", "anything.at.all"));
}

#[test]
fn resolve_matches_entity_id_and_friendly_name() {
    let states = States::new(vec![entity(
        "switch.abc123",
        "off",
        r#"{ "friendly_name": "Pomp washok" }"#,
    )]);

    assert_eq!(resolve(&states, "*washok*").len(), 1);
    assert_eq!(resolve(&states, "switch.abc123").len(), 1);
    assert_eq!(resolve(&states, "*boven*").len(), 0);
}

#[test]
fn parts_do_not_overlap() {
    assert!(!glob_match("a*a", "a"));
    assert!(glob_match("a*a", "aa"));
    assert!(!glob_match("ab*bc", "abc"));
    assert!(glob_match("ab*bc", "abbc"));
    assert!(!glob_match("*ab*ab*", "xabx"));
    assert!(glob_match("*ab*ab*", "abab"));
}

#[test]
fn a_part_in_the_middle_takes_its_first_occurrence() {
    assert!(glob_match("*a*b", "aXbab"));
    assert!(glob_match("x*ab*c", "xababc"));
    assert!(!glob_match("x*ab*c", "xbac"));
}

#[test]
fn empty_texts_and_empty_patterns() {
    assert!(glob_match("", ""));
    assert!(!glob_match("", "a"));
    assert!(!glob_match("a", ""));
    assert!(glob_match("*", ""));
    assert!(glob_match("**", ""));
    assert!(glob_match("**a**", "bab"));
}

#[test]
fn only_ascii_letters_lose_their_case() {
    assert!(glob_match("Z*é", "zé"));
    assert!(!glob_match("*É", "zé"));
    assert!(glob_match("[*", "[x"));
    assert!(!glob_match("[*", "{x"));
    assert!(glob_match("@*`", "@`"));
}

#[test]
fn stars_stand_for_beginnings_endings_and_occurrences() {
    assert!(glob_match(
        "climate.bathroom*",
        "climate.bathroom_upstairs_1"
    ));
    assert!(!glob_match("climate.bathroom*", "xclimate.bathroom"));
    assert!(glob_match("*pomp", "switch.pomp"));
    assert!(!glob_match("*pomp", "switch.pomp_2"));
    assert!(glob_match("*ö*", "köln"));
}

#[test]
fn a_pattern_without_star_takes_the_exact_id_only() {
    let states = States::new(vec![
        entity("switch.a", "on", r#"{ "friendly_name": "switch.b" }"#),
        entity("switch.B", "on", "{}"),
    ]);
    assert_eq!(ids(&states, "switch.b"), Vec::<String>::new());
    assert_eq!(ids(&states, "switch.a"), vec!["switch.a".to_string()]);
    assert_eq!(
        ids(&states, "SWITCH.*b"),
        vec!["switch.B".to_string(), "switch.a".to_string()]
    );
}

#[test]
fn hits_come_in_the_order_of_their_ids() {
    let states = States::new(vec![
        entity("climate.b", "heat", "{}"),
        entity("climate.a_2", "heat", "{}"),
        entity("climate.é", "heat", "{}"),
        entity("climate.a", "heat", "{}"),
        entity("climate.Z", "heat", "{}"),
    ]);
    assert_eq!(
        ids(&states, "climate.*"),
        vec!["climate.Z", "climate.a", "climate.a_2", "climate.b", "climate.é"]
    );
}

#[test]
fn of_two_entities_with_one_id_the_last_one_stays() {
    let states = States::new(vec![
        entity("switch.a", "on", "{}"),
        entity("switch.b", "on", "{}"),
        entity("switch.a", "off", "{}"),
    ]);
    let hits = resolve(&states, "switch.*");
    assert_eq!(hits.len(), 2);
    assert_eq!(hits[0].entity_id, "switch.a");
    assert_eq!(hits[0].state, "off");
}

#[test]
fn a_friendly_name_counts_only_where_it_is_a_text() {
    let states = States::new(vec![
        entity("switch.a", "on", r#"{ "friendly_name": 12 }"#),
        entity("switch.b", "on", r#"["friendly_name"]"#),
        entity("switch.c", "on", "null"),
    ]);
    assert_eq!(ids(&states, "*1*"), Vec::<String>::new());
    assert_eq!(ids(&states, "*friendly*"), Vec::<String>::new());
}

#[test]
fn one_entity_is_picked_or_none() {
    let states = States::new(vec![
        entity("switch.a", "on", "{}"),
        entity("switch.ab", "unavailable", "{}"),
        entity("switch.c", "unknown", "{}"),
    ]);
    assert!(matches!(pick(&states, "*x*"), Pick::NoMatch));
    match pick(&states, "switch.a*") {
        Pick::Ambiguous(found) => assert_eq!(found, vec!["switch.a", "switch.ab"]),
        other => panic!("{other:?}"),
    }
    match pick(&states, "switch.ab") {
        Pick::Unavailable(e) => assert_eq!(e.entity_id, "switch.ab"),
        other => panic!("{other:?}"),
    }
    assert!(matches!(pick(&states, "*.c"), Pick::Unavailable(_)));
    match pick(&states, "switch.a") {
        Pick::Ready(e) => assert_eq!(e.state, "on"),
        other => panic!("{other:?}"),
    }
}
