[package]
name = "flowsight_agent"
version = "0.1.0"
edition = "2021"
publish = false

[dependencies]
chrono = "0.4"
dirs = "*"
log = "0.4"
open = "*"
serde_json = "1"
active-win-pos-rs = "*"
