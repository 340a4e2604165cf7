[package]
name = "agent_sessions"
version = "0.1.0"
edition = "2021"
publish = false

[dependencies]
serde_json = "=1.0.151"
dirs = "=7.0.0"
rusqlite = { version = "=0.40.2", features = ["bundled"] }
