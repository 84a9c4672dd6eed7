[package]
name = "band"
version = "0.1.0"
edition = "2021"
publish = false

[dependencies]
sled = "0.34"
bincode = "1"
rand = "0.8"
harsh = "0.2"
chrono = "0.4"
broadcaster = "1"
futures-util = "0.3"
serde = { version = "1", features = ["derive"] }
serde_json = "1"
tide = "0.16"
async-std = { version = "1", features = ["attributes"] }
