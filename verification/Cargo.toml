[package]
name = "calendar_ql"
version = "0.1.0"
edition = "2021"
publish = false

[dependencies]
async-timers = "0.1"
chrono = { version = "=0.4.45", features = ["serde"] }
chrono-tz = "0.8"
dioxus = { version = "0.4", default-features = false, features = ["macro", "html"] }
dioxus-logger = "0.4"
dioxus-router = { version = "0.4", default-features = false }
log = "0.4"
open-meteo-rs = "0.0"
serde = { version = "=1.0.229", features = ["derive"] }
serde_json = "=1.0.154"
strum = { version = "0.25", features = ["derive"] }
