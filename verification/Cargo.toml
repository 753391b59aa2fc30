[package]
name = "smartycrank"
version = "0.1.0"
edition = "2021"
publish = false

[dependencies]
base64 = "0.22"
clap = { version = "4", features = ["derive"] }
dirs = "6"
futures-util = { version = "0.3", features = ["sink"] }
keyring = { version = "3", features = ["sync-secret-service", "vendored", "crypto-rust"] }
native-tls = "0.2"
open = "5"
rand = "0.8"
reqwest = { version = "0.12", features = ["json"] }
serde = { version = "1", features = ["derive"] }
serde_json = "1"
sha2 = "0.10"
tokio = { version = "1", features = ["macros", "rt-multi-thread", "time"] }
tokio-tungstenite = { version = "0.26", features = ["native-tls"] }
toml = "0.8"
urlencoding = "2"
