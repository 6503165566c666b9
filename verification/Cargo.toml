[package]
name = "rdnsx-core"
version = "0.1.0"
edition = "2021"
publish = false

[dependencies]
hickory-resolver = "0.24"
reqwest = { version = "0.12", default-features = false, features = ["json"] }
ureq = { version = "2", default-features = false, features = ["json"] }
serde = { version = "1", features = ["derive"] }
serde_json = "1"
chrono = { version = "0.4", default-features = false, features = ["clock", "std"] }
parking_lot = "0.12"
async-trait = "0.1"
tracing = "0.1"
