[package]
name = "ostree_ext"
version = "0.1.0"
edition = "2021"
publish = false

[dependencies]
anyhow = "=1.0.104"
bytes = "=1.12.1"
camino = "=1.2.6"
futures-util = "=0.3.34"
hex = "=0.4.3"
nix = { version = "=0.31.3", features = ["fs"] }
openssl = "=0.10.81"
serde = { version = "=1.0.229", features = ["derive"] }
serde_json = "=1.0.151"
tar = "=0.4.46"
tempfile = "=3.27.0"
tokio = { version = "=1.53.2", features = ["full"] }
tokio-stream = "=0.1.19"
tokio-util = { version = "=0.7.19", features = ["io-util"] }
