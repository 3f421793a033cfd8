[package]
name = "codex_meter"
version = "0.1.0"
edition = "2021"
publish = false

[dependencies]
serde = { version = "1", features = ["derive"] }
serde_json = { version = "1", features = ["raw_value"] }
sha2 = "0.10"
csv = "1"
clap = { version = "4", features = ["derive"] }
dirs = "*"
notify = "*"
rusqlite = { version = "*", features = ["bundled"] }
