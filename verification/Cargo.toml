[package]
name = "event_sourcing"
version = "0.1.0"
edition = "2021"
publish = false

[dependencies]
serde = { version = "1", features = ["derive"] }
serde_json = "1"
serde_json_path = "0.7"
indexmap = { version = "2", features = ["serde"] }
thiserror = "2"
async-trait = "0.1"
futures = "0.3"
futures-core = "0.3"
tokio = { version = "1", features = ["sync", "rt", "macros"] }
syn = { version = "2", features = ["full"] }
quote = "1"
proc-macro2 = "1"
