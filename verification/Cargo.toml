[package]
name = "azalea_bot"
version = "0.1.0"
edition = "2021"
publish = false

[dependencies]
azalea = "*"
axum = "*"
chrono = "*"
eyre = "*"
parking_lot = "*"
serde = { version = "*", features = ["derive"] }
serde_json = "*"
serde_yaml = "*"
tokio = { version = "*", features = ["fs", "io-std", "io-util", "macros", "net", "rt-multi-thread", "sync"] }
uuid = "*"
