[package]
name = "glancelog"
version = "0.1.0"
edition = "2021"
publish = false

[dependencies]
anyhow = "1"
chrono = "0.4"
clap = { version = "4", features = ["derive"] }
dirs = "5"
evtx = { version = "0.8", default-features = false }
rand = "0.8"
regex = "1"
serde_json = "1"
