//! TachTalk: an ELM327 proxy with shift lights.
//!
//! The modules hold the rules of the device as plain functions on plain
//! values: what is sent on the wire, what is cached, which LED is lit. Sockets,
//! clocks, GPIO pins and flash storage belong to the program around them; it
//! passes times, bytes and events in and carries the results out.


pub mod auth;
pub mod benchmark;
pub mod capture_format;
pub mod colors;
pub mod config;
pub mod controls;
pub mod decode;
pub mod dns;
pub mod elm327;
pub mod error;
pub mod led_display;
pub mod leds;
pub mod mock;
pub mod obd2;
pub mod ota;
pub mod rpm_leds;
pub mod shift_lights;
pub mod sse;
pub mod status_leds;
pub mod tasks;
pub mod text;
pub mod threshold;
pub mod web;
pub mod wifi;
