[package]
name = "agent-gh"
version = "0.1.0"
edition = "2021"
publish = false

[dependencies]
anyhow = "=1.0.104"
camino = "=1.2.6"
dirs = "=7.0.0"
fs-err = "=3.3.2"
jiff = { version = "=0.2.39", features = ["serde"] }
jsonwebtoken = { version = "=11.1.0", features = ["aws_lc_rs"] }
rustls = "=0.23.46"
serde = { version = "=1.0.229", features = ["derive"] }
serde_json = { version = "=1.0.154", features = ["raw_value"] }
toml = "=1.1.8"
ureq = "=3.5.1"

[dev-dependencies]
aws-lc-rs = "=1.19.0"
pem = "=3.0.6"
