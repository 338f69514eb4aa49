[package]
name = "canister_gateway"
version = "0.1.0"
edition = "2021"
publish = false

[dependencies]
candid = "=0.10.37"
flate2 = "=1.1.10"
sha2 = "=0.11.0"
base64 = "=0.23.1"
serde_cbor = "=0.11.2"
hyper = { version = "=0.14.32", features = ["full"] }
tokio = { version = "=1.53.2", features = ["rt-multi-thread", "sync", "macros", "time", "net"] }
redis = { version = "=1.7.1", features = ["tokio-comp"] }
ic-agent = "=0.49.2"
ic-utils = "=0.49.2"
clap = { version = "=4.6.7", features = ["derive"] }
