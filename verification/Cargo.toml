[package]
name = "formjson"
version = "0.1.0"
edition = "2021"
publish = false

[dependencies]
percent-encoding = "*"
encoding_rs = "*"
serde_json = "*"
url = "*"
clap = { version = "*", features = ["derive"] }
