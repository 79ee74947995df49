[package]
name = "trx"
version = "0.6.0"
edition = "2021"
publish = false

[dependencies]
anyhow = "1"
automerge = "0.5"
base32 = "0.5"
chrono = { version = "0.4", features = ["serde"] }
clap = { version = "4", features = ["derive"] }
colored = "2"
crossterm = "0.28"
ratatui = "0.29"
serde = { version = "1", features = ["derive"] }
serde_json = "1"
sha2 = "0.10"
sysinfo = "0.33"
toml = "0.8"
uuid = { version = "1", features = ["v4"] }
