[package]
name = "overclock"
version = "0.1.0"
edition = "2021"
publish = false

[dependencies]
chumsky = { version = "0.10", default-features = false, features = ["std"] }
tokio = { version = "1", features = ["rt-multi-thread", "macros", "sync", "time", "net"] }
futures = "0.3"
serde = { version = "1", features = ["derive"] }
serde_json = "1"
tokio-tungstenite = "*"
