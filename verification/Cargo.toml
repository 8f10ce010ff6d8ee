[package]
name = "rpk"
version = "0.1.0"
edition = "2021"
publish = false

[dependencies]
anyhow = "1"
clap = { version = "4", features = ["derive", "env"] }
clap_complete = "4"
emojis = "*"
futures = "0.3"
home = "*"
serde = { version = "1", features = ["derive"] }
serde_json = "1"
thiserror = "*"
tokio = { version = "1", features = ["fs", "process", "rt-multi-thread", "macros"] }
toml = "*"
tracing = "0.1"
url = { version = "2", features = ["serde"] }
yansi = "*"
