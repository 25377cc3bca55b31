[package]
name = "dexter_core"
version = "0.1.0"
edition = "2021"
publish = false

[dependencies]
cosmwasm-std = "1.5"
cw2 = "1.1"
cw20 = "1.1"
cw-storage-plus = "1.2"
cw-utils = "1.0"
serde = { version = "1.0", default-features = false, features = ["derive"] }
schemars = "0.8"
thiserror = "1.0"
protobuf = "2.28"
serde-json-wasm = "1.0"
itertools = "0.12"
const_format = "0.2"
