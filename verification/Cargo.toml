[package]
name = "sazid"
version = "0.1.0"
edition = "2021"
publish = false

[dependencies]
uuid = { version = "=1.27.0", features = ["v4"] }
rand = "=0.8.8"
chrono = "=0.4.45"
clap = { version = "=4.6.7", features = ["derive"] }
serde = { version = "=1.0.229", features = ["derive"] }
serde_json = "=1.0.151"
toml = "=1.1.7"
tokio = { version = "=1.53.2", features = ["rt-multi-thread", "macros", "sync", "time"] }
futures = "=0.3.34"
async-openai = { version = "=0.42.1", features = ["chat-completion", "model"] }
rustyline = "=18.0.1"
