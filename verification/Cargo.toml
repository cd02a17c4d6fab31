[package]
name = "mlrs"
version = "0.1.0"
edition = "2021"
publish = false

[dependencies]
regex = "=1.13.1"
rhai = "=1.27.0"
tokio = { version = "=1.54.1", features = ["full"] }
tokio-util = "=0.7.20"
anyhow = "=1.0.104"
thiserror = "=2.0.21"
async-trait = "=0.1.92"
serde = { version = "=1.0.229", features = ["derive"] }
reqwest = { version = "=0.12.28", features = ["json"] }
async-openai = { version = "=0.43.0", features = ["chat-completion"] }
clap = { version = "=4.6.7", features = ["derive"] }
clap_complete = "=4.6.11"
clap_complete_nushell = "=4.6.2"
reedline = "=0.52.1"
nu-ansi-term = "=0.50.3"
slash-core = "=0.1.0"
slash-lang = "=0.1.0"
tracing = "=0.1.44"
tracing-subscriber = { version = "=0.3.23", features = ["env-filter"] }
