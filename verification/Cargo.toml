[package]
name = "authit"
version = "0.1.0"
edition = "2021"
publish = false

[dependencies]
hmac = "0.12"
sha2 = "0.10"
base64 = "0.22"
uuid = { version = "1", features = ["v7"] }
jiff = "0.2"
serde = { version = "1", features = ["derive"] }
serde_json = "1"
url = "2"
cookie = "0.18"
axum = "0.8"
tokio = { version = "1", features = ["rt-multi-thread", "macros", "sync", "net", "time"] }
reqwest = { version = "0.12", default-features = false, features = ["json"] }
oauth2 = { version = "5", default-features = false }
