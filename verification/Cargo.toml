[package]
name = "serde-sqlite-jsonb"
version = "0.1.0"
edition = "2021"
publish = false

[dependencies]
serde = "=1.0.229"
serde_json = "=1.0.154"
serde_json5 = "=0.2.1"

[dev-dependencies]
rusqlite = { version = "*", features = ["bundled", "blob"] }
