[package]
name = "ds_free_api"
version = "0.1.0"
edition = "2021"
publish = false

[dependencies]
anyhow = "1"
axum = { version = "0.8", default-features = false, features = ["json"] }
base64 = "0.22"
bcrypt = "0.17"
bytes = "1"
chrono = { version = "0.4", default-features = false, features = ["clock"] }
dashmap = "6"
futures = "0.3"
hmac = "*"
log = "0.4"
pin-project-lite = "0.2"
rand = "*"
serde = { version = "1", features = ["derive"] }
serde_json = "1"
sha2 = "*"
thiserror = "2"
tiktoken-rs = "*"
tokio = { version = "1", features = ["rt", "sync", "time", "macros"] }
toml = "*"
