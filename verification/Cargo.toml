[package]
name = "financoor"
version = "0.1.0"
edition = "2021"
publish = false

[dependencies]
anyhow = "1"
axum = "0.8"
base64 = "=0.22.1"
chrono = { version = "0.4", default-features = false, features = ["std", "clock"] }
hex = "=0.4.3"
rand = "=0.8.8"
reqwest = { version = "0.12", default-features = false, features = ["json"] }
serde = { version = "1", features = ["derive"] }
serde_json = "1"
sha2 = { version = "=0.10.9", features = ["compress"] }
tokio = { version = "1", features = ["macros", "net", "rt-multi-thread", "sync"] }
