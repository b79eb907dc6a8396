[package]
name = "staged_update"
version = "0.1.0"
edition = "2021"
publish = false

[dependencies]
chrono = "=0.4.45"
flate2 = "=1.1.10"
log = "0.4"
serde = { version = "1", features = ["derive"] }
serde_json = "1"
tar = "=0.4.46"
tokio = { version = "=1.54.1", features = ["rt-multi-thread", "sync"] }
zip = { version = "=2.6.1", default-features = false, features = ["deflate"] }
