//! The OBD2 side of the proxy: what is sent to the dongle, how its answers are
//! read, which PIDs are polled how often, and what each client gets to see.

pub mod buffers;
pub mod cache;
pub mod dongle;
pub mod manager;
pub mod metrics;
pub mod parse;
pub mod polling;
pub mod proxy;
pub mod roundtrip;
pub mod wire;
