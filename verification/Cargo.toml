[package]
name = "timestampvm"
version = "0.1.0"
edition = "2021"
publish = false

[dependencies]
avalanche-types = "*"
jsonrpc-core = "*"
jsonrpc-derive = "*"
log = "*"
serde = { version = "*", features = ["derive"] }
