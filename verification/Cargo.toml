[package]
name = "snmidi"
version = "0.1.0"
edition = "2021"
publish = false

[dependencies]
bstr = "1"
clap = { version = "4", features = ["derive"] }
color-eyre = "0.6"
midir = "0.10"
midly = "0.5"
serde = { version = "1", features = ["derive"] }
serde_json = "1"
tokio = { version = "1", features = ["full"] }
tracing = "0.1"
tracing-error = "0.2"
tracing-subscriber = "0.3"
winapi = { version = "0.3", features = ["timeapi"] }
