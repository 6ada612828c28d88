[package]
name = "gpt_cli"
version = "0.1.0"
edition = "2021"
publish = false

[dependencies]
anyhow = "=1.0.104"
async-openai = { version = "=0.42.1", features = ["chat-completion"] }
chrono = "=0.4.45"
clap = { version = "=4.6.7", features = ["derive"] }
config = "=0.15.27"
dialoguer = { version = "=0.12.0", features = ["fuzzy-select", "history"] }
directories = "=6.0.0"
futures = "=0.3.34"
serde = { version = "=1.0.229", features = ["derive"] }
serde_yaml = "=0.9.34"
tiktoken-rs = "=0.12.1"
tokio = { version = "=1.53.2", features = ["macros", "rt-multi-thread"] }
