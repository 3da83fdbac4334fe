//! The decisions of a daemon that links floor heating zones to the thermostat of a heat pump.
//!
//! At every poll Home Assistant reports its entities. The zones whose thermostats call for heat
//! have their pumps switched on ([`zones`]), and the main thermostat is driven to match
//! ([`heat_pump`]). Commands that a device does not apply are repeated, but not too often
//! ([`writes`], [`throttle`]). What is read and sent stays outside: the library takes reports and
//! answers, and gives back what to do next.

pub mod config;
pub mod degrees;
pub mod entity;
pub mod glob;
pub mod heat_pump;
pub mod home_assistant;
pub mod json;
pub mod states;
pub mod table;
pub mod text;
pub mod throttle;
pub mod token;
pub mod writes;
pub mod zones;
