[package]
name = "traffic_tiles"
version = "0.1.0"
edition = "2021"
publish = false

[dependencies]
serde_json = "*"
serde = { version = "*", features = ["derive"] }
axum = "*"
clap = { version = "*", features = ["derive", "env"] }
reqwest = { version = "*", default-features = false, features = ["json"] }
tokio = { version = "*", features = ["rt-multi-thread", "macros", "net", "fs", "io-util", "signal"] }
tracing = "*"
tracing-subscriber = "*"
valhalla = "*"
