[package]
name = "watchdog"
version = "0.1.0"
edition = "2021"
publish = false

[dependencies]
crossterm = "*"
dotenv = "*"
eyre = "*"
rand = "*"
ratatui = "*"
reqwest = { version = "*", default-features = false, features = ["json"] }
serde = { version = "*", features = ["derive"] }
serde_json = "*"
tokio = { version = "*", features = ["full"] }
tracing = "*"
tracing-appender = "*"
tracing-subscriber = "*"
