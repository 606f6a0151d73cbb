[package]
name = "axiom_core"
version = "0.1.0"
edition = "2021"
publish = false

[dependencies]
semver = "1"
serde = { version = "1", features = ["derive"] }
serde_json = "1"
toml = "0.8"
mathcore = "*"
rusqlite = { version = "*", features = ["bundled"] }
chrono = "0.4"
uuid = { version = "1", features = ["v4"] }
async-trait = "0.1"
