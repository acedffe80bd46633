[package]
name = "ofuton"
version = "0.1.0"
edition = "2021"
publish = false

[dependencies]
blake3 = "*"
sha2 = "*"
hmac = "*"
uuid = { version = "*", features = ["v4"] }
chrono = "*"
axum = "*"
axum-extra = { version = "*", features = ["typed-header"] }
axum-range = "*"
tokio = { version = "*", features = ["full"] }
serde = { version = "*", features = ["derive"] }
clap = { version = "*", features = ["derive"] }
mime_guess = "*"
