[package]
name = "sni_spoof_rs"
version = "0.1.0"
edition = "2021"
publish = false

[dependencies]
base64 = "0.22"
libc = "0.2"
nix = { version = "0.29", features = ["net"] }
rand = "0.8"
serde = { version = "1", features = ["derive"] }
serde_json = "1"
socket2 = { version = "0.5", features = ["all"] }
thiserror = "2"
tokio = { version = "1", features = ["full"] }
tokio-io-timeout = "1"
tokio-util = "0.7"
tracing = "0.1"
tracing-subscriber = { version = "0.3", features = ["env-filter"] }
url = "2"
