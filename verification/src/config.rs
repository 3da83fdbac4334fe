//! The configuration: what it holds, when it is valid, and where it is found.

use vstd::prelude::*;

use crate::degrees::Degrees;
use crate::table::Table;
use crate::text::{begins_with, strip_prefix};

verus! {

/// Default location of the configuration file, relative to the user's config dir.
pub const DEFAULT_CONFIG_RELPATH: &'static str = "thermostat-linker/Config.toml";

/// Older location, still honoured so existing installs keep working.
pub const LEGACY_CONFIG_RELPATH: &'static str = "thermostat-linkerd/Config.toml";

/// Environment variable consulted when the config names no token source at all.
pub const FALLBACK_TOKEN_ENV: &'static str = "HA_TOKEN";

/// The configuration of the daemon.
#[derive(Debug)]
pub struct Config {
    /// Entity id of the main (heat pump) thermostat, e.g. `climate.keuken_warmtepomp`.
    pub main: String,
    /// Amount added to the main thermostat's own measured temperature to derive the setpoint.
    pub temp_increment: Degrees,
    /// Preset mode to hold the main thermostat in, e.g. `PermanentHold`.
    pub preset_mode: Option<String>,
    /// Margin around each zone thermostat's setpoint.
    pub hysteresis: Degrees,
    /// Whether to log service calls without making them.
    pub dry_run: bool,
    /// Seconds between polls.
    pub poll_interval: u64,
    /// Seconds before a write that was not applied is attempted again.
    pub min_write_interval: u64,
    /// How to reach Home Assistant.
    pub home_assistant: HaConfig,
    /// Pump name to zone thermostat entity ids.
    pub zones: Table<Vec<String>>,
}

/// How to reach Home Assistant, and where its access token is found.
#[derive(Debug)]
pub struct HaConfig {
    /// Base URL of the Home Assistant instance, e.g. `http://10.0.1.1:8123`.
    pub baselink: String,
    /// Name of an environment variable holding the long-lived access token.
    pub token_env: Option<String>,
    /// Shell command, stdout of which is the token, e.g. `pass show home-assistant/token`.
    pub token_command: Option<String>,
    /// Path to a file containing the token. Must not be group/world readable.
    pub token_file: Option<String>,
    /// Token inline in the config file. Discouraged.
    pub token: Option<String>,
}

/// Why a configuration is not valid.
#[derive(Debug, Clone, Copy, PartialEq, Eq, Structural)]
pub enum ConfigError {
    /// The poll interval is zero.
    ZeroPollInterval,
    /// The hysteresis is negative.
    NegativeHysteresis,
    /// The increment is not positive, so the main thermostat is never asked for a temperature
    /// above the room.
    NonPositiveIncrement,
    /// The main thermostat does not look like a climate entity id.
    MainNotClimate,
}

/// The margin where the configuration gives none: the double nearest to 0.2.
pub fn default_hysteresis() -> (hysteresis: Degrees)
    ensures
        hysteresis.bits == 0x3fc9_9999_9999_999a,
{
    Degrees::from_bits(0x3fc9_9999_9999_999a)
}

/// The seconds between polls where the configuration gives none.
pub fn default_poll_interval() -> (secs: u64)
    ensures
        secs == 30,
{
    30
}

/// The seconds between attempts of a write where the configuration gives none.
pub fn default_min_write_interval() -> (secs: u64)
    ensures
        secs == 300,
{
    300
}

impl Config {
    /// What is wrong with a configuration, the first fault of several.
    pub open spec fn fault(self) -> Option<ConfigError> {
        if self.poll_interval == 0 {
            Some(ConfigError::ZeroPollInterval)
        } else if self.hysteresis.below(Degrees { bits: 0 }) {
            Some(ConfigError::NegativeHysteresis)
        } else if self.temp_increment.at_most(Degrees { bits: 0 }) {
            Some(ConfigError::NonPositiveIncrement)
        } else if !"climate."@.is_prefix_of(self.main@) {
            Some(ConfigError::MainNotClimate)
        } else {
            None
        }
    }

    /// Accepts a configuration that the daemon can run with.
    pub fn validate(&self) -> (verdict: Result<(), ConfigError>)
        ensures
            match verdict {
                Ok(_) => self.fault() is None,
                Err(error) => self.fault() == Some(error),
            },
    {
        let zero = Degrees::from_bits(0);
        if self.poll_interval == 0 {
            Err(ConfigError::ZeroPollInterval)
        } else if self.hysteresis.lt(zero) {
            Err(ConfigError::NegativeHysteresis)
        } else if self.temp_increment.le(zero) {
            Err(ConfigError::NonPositiveIncrement)
        } else if !begins_with(self.main.as_str(), "climate.") {
            Err(ConfigError::MainNotClimate)
        } else {
            Ok(())
        }
    }

    /// Resolves which config file to read: an explicit path if one is given, otherwise the
    /// default location, or the older one where only that exists.
    pub fn resolve_path(
        explicit: bool,
        config_dir: bool,
        preferred_exists: bool,
        legacy_exists: bool,
    ) -> (choice: Option<ConfigPath>)
        ensures
            choice == config_path(explicit, config_dir, preferred_exists, legacy_exists),
    {
        if explicit {
            return Some(ConfigPath::Explicit);
        }
        if !config_dir {
            return None;
        }
        if preferred_exists {
            return Some(ConfigPath::Preferred);
        }
        if legacy_exists {
            return Some(ConfigPath::Legacy);
        }
        // The location that the user is supposed to create.
        Some(ConfigPath::Preferred)
    }
}

/// Which config file is read.
#[derive(Debug, Clone, Copy, PartialEq, Eq, Structural)]
pub enum ConfigPath {
    /// The one that was asked for.
    Explicit,
    /// `DEFAULT_CONFIG_RELPATH` under the user's config dir.
    Preferred,
    /// `LEGACY_CONFIG_RELPATH` under the user's config dir.
    Legacy,
}

/// Which config file is read. There is none where no path is given and the user has no config
/// dir. The older location counts only where it exists and the default one does not.
pub open spec fn config_path(
    explicit: bool,
    config_dir: bool,
    preferred_exists: bool,
    legacy_exists: bool,
) -> Option<ConfigPath> {
    if explicit {
        Some(ConfigPath::Explicit)
    } else if !config_dir {
        None
    } else if legacy_exists && !preferred_exists {
        Some(ConfigPath::Legacy)
    } else {
        Some(ConfigPath::Preferred)
    }
}

/// What a path that may begin with `~/` stands for: the part that is to be put under the home
/// directory, or nothing where the path stands for itself.
pub fn expand_tilde(path: &str, home_known: bool) -> (under_home: Option<String>)
    ensures
        match under_home {
            Some(rest) => home_known && path@ == "~/"@ + rest@,
            None => !(home_known && "~/"@.is_prefix_of(path@)),
        },
{
    if home_known {
        strip_prefix(path, "~/")
    } else {
        None
    }
}

/// A configuration is accepted exactly when it polls at all, its hysteresis is not negative, its
/// increment is not zero and not negative, and its main thermostat is a climate entity. What is
/// no number counts as neither.
pub proof fn law_what_is_accepted(config: Config)
    ensures
        config.fault() is None <==> {
            &&& config.poll_interval != 0
            &&& config.hysteresis.bits <= 0x8000_0000_0000_0000 || config.hysteresis.bits
                > 0xfff0_0000_0000_0000
            &&& config.temp_increment.bits != 0 && config.temp_increment.bits
                < 0x8000_0000_0000_0000 || config.temp_increment.bits > 0xfff0_0000_0000_0000
            &&& "climate."@.is_prefix_of(config.main@)
        },
{
}

/// Each fault is reported exactly where it is there and those before it are not.
pub proof fn law_each_fault_is_reported(config: Config)
    ensures
        config.poll_interval == 0 <==> config.fault() == Some(ConfigError::ZeroPollInterval),
        config.poll_interval != 0 && 0x8000_0000_0000_0000 < config.hysteresis.bits
            <= 0xfff0_0000_0000_0000 <==> config.fault() == Some(ConfigError::NegativeHysteresis),
        config.poll_interval != 0 && !(0x8000_0000_0000_0000 < config.hysteresis.bits
            <= 0xfff0_0000_0000_0000) && (config.temp_increment.bits == 0 || 0x8000_0000_0000_0000
            <= config.temp_increment.bits <= 0xfff0_0000_0000_0000) <==> config.fault() == Some(
            ConfigError::NonPositiveIncrement,
        ),
        config.poll_interval != 0 && !(0x8000_0000_0000_0000 < config.hysteresis.bits
            <= 0xfff0_0000_0000_0000) && !(config.temp_increment.bits == 0 || 0x8000_0000_0000_0000
            <= config.temp_increment.bits <= 0xfff0_0000_0000_0000) && !"climate."@.is_prefix_of(
            config.main@,
        ) <==> config.fault() == Some(ConfigError::MainNotClimate),
{
}

/// Which file is read: the one that was asked for, before all others; without a config dir none
/// other; and of the two places in that dir the older one only where it alone exists.
pub proof fn law_which_file_is_read(explicit: bool, config_dir: bool, preferred: bool, legacy: bool)
    ensures
        config_path(true, config_dir, preferred, legacy) == Some(ConfigPath::Explicit),
        config_path(explicit, config_dir, preferred, legacy) is None <==> !explicit && !config_dir,
        config_path(false, true, true, legacy) == Some(ConfigPath::Preferred),
        config_path(false, true, false, true) == Some(ConfigPath::Legacy),
        config_path(false, true, false, false) == Some(ConfigPath::Preferred),
{
}

} // verus!
