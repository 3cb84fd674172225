//! Mock ELM327 adapters, for trying out a proxy without a car.

pub mod fixed;
pub mod server;
