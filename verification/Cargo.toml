[package]
name = "patchbay"
version = "0.1.0"
edition = "2021"
publish = false

[dependencies]
anyhow = "=1.0.104"
serde = { version = "=1.0.229", features = ["derive"] }
serde_json = "=1.0.154"
toml = "=0.8.23"
clap = { version = "=4.6.7", features = ["derive"] }
sha2 = "=0.10.9"
chrono = { version = "=0.4.45", default-features = false, features = ["clock", "std"] }
dirs = "=5.0.1"
nix = { version = "=0.29.0", features = ["signal"] }
flate2 = "=1.1.10"
tar = "=0.4.46"
webbrowser = "=1.2.6"
open = "=5.4.5"
tracing = "=0.1.44"
tokio = { version = "=1.54.1", features = ["rt", "macros", "time", "process", "net", "sync"] }
reqwest = { version = "=0.12.28", default-features = false, features = ["blocking", "json"] }
ipnet = "=2.12.2"
hickory-proto = { version = "0.24", default-features = false }
