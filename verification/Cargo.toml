[package]
name = "void_core"
version = "0.1.0"
edition = "2021"
publish = false

[dependencies]
serde = { version = "1", features = ["derive"] }
serde_json = "1"
toml = "0.8"
base64 = "0.22"
uuid = { version = "1", features = ["v4"] }
sha2 = "0.10"
hex = "0.4"
ed25519-dalek = "2"
aes-gcm = "0.10"
rand = "0.8"
getrandom = "0.2"
tokio = { version = "1", features = ["sync", "rt-multi-thread", "macros", "time", "fs", "io-util", "io-std", "net"] }
anyhow = "1"
thiserror = "1"
tracing = "0.1"
notify = "6"
futures-util = "0.3"
reqwest = { version = "0.12", default-features = false, features = ["stream"] }
wasmi = "*"
