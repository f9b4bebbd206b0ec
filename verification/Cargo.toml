[package]
name = "playoffsbot"
version = "0.1.0"
edition = "2021"
publish = false

[dependencies]
rand = "=0.8.8"
attohttpc = { version = "=0.31.0", features = ["json"] }
chrono = { version = "=0.4.45", features = ["serde"] }
chrono-tz = "=0.10.4"
ordinal = "=0.4.1"
orca = "=0.7.0"
serde = { version = "=1.0.229", features = ["derive"] }
serde_json = "=1.0.151"
