[package]
name = "vpp_api_transport"
version = "0.1.0"
edition = "2021"
publish = false

[dependencies]
bincode = "1.3"
serde = { version = "1", features = ["derive"] }
serde-big-array = "0.5"
lazy_static = "1.4"
vpp-api-message = "*"
