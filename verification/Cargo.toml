[package]
name = "ncmc_lib"
version = "0.1.0"
edition = "2021"
publish = false

[dependencies]
aes = "*"
base64 = "*"
bytes = "1"
ecb = { version = "*", features = ["alloc", "block-padding"] }
futures-core = "0.3"
futures-sink = "0.3"
futures-util = { version = "0.3", features = ["io"] }
id3 = "1"
serde = { version = "1", features = ["derive"] }
serde_json = "1"
ureq = "3"
