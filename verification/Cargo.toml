[package]
name = "local_agent"
version = "0.1.0"
edition = "2021"
publish = false

[dependencies]
anyhow = "1"
async-openai = { version = "=0.43.0", features = ["chat-completion"] }
dotenvy = "0.15"
futures-util = "0.3"
reqwest = { version = "=0.13.5", default-features = false }
rustyline = "=19.0.0"
serde_json = "=1.0.154"
tokio = { version = "1", features = ["macros", "rt-multi-thread", "time"] }
