[package]
name = "sdp-types"
version = "0.1.0"
edition = "2021"
publish = false

[dependencies]
hex = "0.4"
thiserror = "2"
serde = { version = "1", features = ["derive"] }
bstr = "1"

[dev-dependencies]
fallible-iterator = "0.3"
