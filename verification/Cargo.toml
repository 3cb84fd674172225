[package]
name = "tachtalk"
version = "0.1.0"
edition = "2021"
publish = false

[dependencies]
clap = { version = "4", features = ["derive"] }
cookie = "0.18"
hex = "0.4"
indexmap = "2"
log = "0.4"
num-integer = "0.1"
oneshot = "0.1"
rgb = "0.8"
serde = { version = "1", features = ["derive"] }
serde_json = "1"
smallvec = "1"
smart-leds = "0.4"
