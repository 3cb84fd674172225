//! The simpler device: its LEDs follow a list of thresholds, and its proxy asks
//! the dongle anew for every command.

pub mod config;
pub mod dongle;
pub mod leds;
pub mod proxy;
pub mod rpm_task;
pub mod web;
