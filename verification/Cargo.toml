[package]
name = "cds_cqn"
version = "0.1.0"
edition = "2021"
publish = false

[dependencies]
serde = { version = "1", features = ["derive"] }
serde_json = "1"
tide = "0.16"
async-std = "1"
sqlx = { version = "0.8", default-features = false, features = ["sqlite", "runtime-async-std"] }
sqlx-core = "0.8"
