[package]
name = "granc"
version = "0.1.0"
edition = "2021"
publish = false

[dependencies]
prost = "*"
prost-types = "*"
prost-reflect = { version = "*", features = ["serde"] }
tonic = "*"
serde_json = "*"
tokio = { version = "*", features = ["rt-multi-thread", "sync", "macros", "time"] }
tokio-stream = "*"
futures-util = "*"
http = "*"
