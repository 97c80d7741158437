[package]
name = "pocagentskills"
version = "0.1.0"
edition = "2021"
publish = false

[dependencies]
serde_json = "=1.0.154"
serde = { version = "=1.0.229", features = ["derive"] }
serde_yaml = "=0.9.34"
async-openai = { version = "=0.43.0", features = ["byot", "chat-completion"] }
dotenv = "=0.15.0"
futures-util = "=0.3.34"
ratatui = "=0.30.2"
tokio = { version = "=1.54.1", features = ["macros", "rt-multi-thread"] }
