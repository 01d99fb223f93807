[package]
name = "cosmic-world-clock"
version = "0.1.0"
edition = "2021"
publish = false

[dependencies]
jiff = "0.2"
icu = "2"
tzf-rs = "*"
tracing = "0.1"
tokio = { version = "1", features = ["sync", "time", "macros", "rt"] }
zbus = "5"
logind-zbus = "5"
