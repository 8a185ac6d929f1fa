[package]
name = "portfolio_explorer"
version = "0.1.0"
edition = "2021"
publish = false

[dependencies]
cosmos-sdk-proto = { version = "=0.27.0", features = ["cosmwasm"] }
jaq-interpret = "=1.5.0"
jaq-parse = "=1.0.3"
serde_json = "=1.0.151"
serde = { version = "=1.0.229", features = ["derive"] }
toml = "=1.1.7"
tokio = { version = "=1.53.2", features = ["full"] }
warp = { version = "=0.4.3", features = ["server"] }
reqwest = { version = "=0.13.5", default-features = false }
tendermint-rpc = { version = "=0.40.4", features = ["http-client"] }
futures = "=0.3.34"
