[package]
name = "vn_core"
version = "0.1.0"
edition = "2021"
publish = false

[dependencies]
sha1 = "*"
anyhow = "*"
futures = "*"
reqwest = { version = "*", default-features = false, features = ["stream"] }
serde = { version = "*", features = ["derive"] }
serde_json = "*"
time = { version = "*", features = ["serde-well-known", "formatting", "parsing"] }
tokio = { version = "*", features = ["rt-multi-thread", "fs", "io-util", "sync", "time", "macros"] }
uuid = { version = "*", features = ["v4"] }
zip = "*"
