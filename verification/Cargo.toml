[package]
name = "hls_proxy"
version = "0.1.0"
edition = "2021"
publish = false

[dependencies]
actix-web = { version = "4", default-features = false }
base64 = "0.13"
colored = "*"
reqwest = { version = "0.11", default-features = false }
url = "2"
