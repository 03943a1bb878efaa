[package]
name = "notify_registry"
version = "0.1.0"
edition = "2021"
publish = false

[dependencies]
uuid = "1"
hex = "0.4"
chrono = "0.4"
serde = { version = "1", features = ["derive"] }
sqlx = { version = "0.8", default-features = false, features = ["postgres", "runtime-tokio", "chrono", "uuid"] }
ed25519-dalek = "2"
x25519-dalek = { version = "2", features = ["static_secrets"] }
