//! The configuration: what is accepted, and where it is found.

use thermostat_linker::config::{
    default_hysteresis, default_min_write_interval, default_poll_interval, expand_tilde, Config,
    ConfigError, ConfigPath, HaConfig,
};
use thermostat_linker::degrees::Degrees;
use thermostat_linker::table::Table;

fn deg(value: f64) -> Degrees {
    Degrees::from_bits(value.to_bits())
}

fn number(degrees: Degrees) -> f64 {
    f64::from_bits(degrees.bits)
}

fn config(temp_increment: f64) -> Config {
    Config {
        main: "climate.test".to_string(),
        temp_increment: deg(temp_increment),
        preset_mode: None,
        hysteresis: default_hysteresis(),
        dry_run: false,
        poll_interval: default_poll_interval(),
        min_write_interval: default_min_write_interval(),
        home_assistant: HaConfig {
            baselink: "http://localhost:8123".to_string(),
            token_env: None,
            token_command: None,
            token_file: None,
            token: None,
        },
        zones: Table::new(),
    }
}

fn parse(body: &str) -> Result<Config, ConfigError> {
    let raw = format!(
        r#"
        main = "climate.test"
        {body}
        [home_assistant]
        baselink = "http://localhost:8123"
        "#
    );
    let table: toml::Table = toml::from_str(&raw).unwrap();
    let mut config = config(table["temp_increment"].as_float().unwrap());
    config.main = table["main"].as_str().unwrap().to_string();
    config.validate()?;
    Ok(config)
}

#[test]
fn a_minimal_config_parses() {
    let c = parse("temp_increment = 0.5").unwrap();
    assert_eq!(number(c.temp_increment), 0.5);
    assert_eq!(c.poll_interval, 30);
}

#[test]
fn non_positive_increment_is_rejected() {
    assert!(parse("temp_increment = 0.0").is_err());
    assert!(parse("temp_increment = -1.0").is_err());
}

#[test]
fn the_defaults_are_those_of_the_documentation() {
    assert_eq!(number(default_hysteresis()), 0.2);
    assert_eq!(default_poll_interval(), 30);
    assert_eq!(default_min_write_interval(), 300);
}

#[test]
fn each_fault_is_reported() {
    assert_eq!(config(0.5).validate(), Ok(()));

    let mut c = config(0.5);
    c.poll_interval = 0;
    assert_eq!(c.validate(), Err(ConfigError::ZeroPollInterval));

    let mut c = config(0.5);
    c.hysteresis = deg(-0.1);
    assert_eq!(c.validate(), Err(ConfigError::NegativeHysteresis));
    c.hysteresis = deg(0.0);
    assert_eq!(c.validate(), Ok(()));
    c.hysteresis = deg(-0.0);
    assert_eq!(c.validate(), Ok(()));

    assert_eq!(
        config(0.0).validate(),
        Err(ConfigError::NonPositiveIncrement)
    );
    assert_eq!(
        config(-0.0).validate(),
        Err(ConfigError::NonPositiveIncrement)
    );
    assert_eq!(config(5e-324).validate(), Ok(()));

    let mut c = config(0.5);
    c.main = "switch.test".to_string();
    assert_eq!(c.validate(), Err(ConfigError::MainNotClimate));
    c.main = "climate".to_string();
    assert_eq!(c.validate(), Err(ConfigError::MainNotClimate));
    c.main = "climate.".to_string();
    assert_eq!(c.validate(), Ok(()));
}

#[test]
fn the_first_of_several_faults_is_reported() {
    let mut c = config(0.0);
    c.main = String::new();
    c.hysteresis = deg(-1.0);
    assert_eq!(c.validate(), Err(ConfigError::NegativeHysteresis));
    c.hysteresis = deg(1.0);
    assert_eq!(c.validate(), Err(ConfigError::NonPositiveIncrement));
}

#[test]
fn the_config_file_is_chosen_by_what_exists() {
    assert_eq!(
        Config::resolve_path(true, false, false, false),
        Some(ConfigPath::Explicit)
    );
    assert_eq!(Config::resolve_path(false, false, false, false), None);
    assert_eq!(
        Config::resolve_path(false, true, true, true),
        Some(ConfigPath::Preferred)
    );
    assert_eq!(
        Config::resolve_path(false, true, false, true),
        Some(ConfigPath::Legacy)
    );
    assert_eq!(
        Config::resolve_path(false, true, false, false),
        Some(ConfigPath::Preferred)
    );
}

#[test]
fn a_tilde_stands_for_the_home_directory() {
    assert_eq!(expand_tilde("~/token", true), Some("token".to_string()));
    assert_eq!(expand_tilde("~/", true), Some(String::new()));
    assert_eq!(expand_tilde("~/é/x", true), Some("é/x".to_string()));
    assert_eq!(expand_tilde("~/token", false), None);
    assert_eq!(expand_tilde("~token", true), None);
    assert_eq!(expand_tilde("/etc/~/token", true), None);
    assert_eq!(expand_tilde("~", true), None);
}
