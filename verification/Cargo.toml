[package]
name = "record_identity"
version = "0.1.0"
edition = "2021"
publish = false

[dependencies]
darling = "=0.20.9"
serde = { version = "1", features = ["derive"] }
tokio = { version = "1", default-features = false, features = ["rt"] }
surrealdb = { version = "=1.3.1", default-features = false, features = ["kv-mem"] }
