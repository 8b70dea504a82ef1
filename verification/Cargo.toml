[package]
name = "restclient"
version = "0.1.0"
edition = "2021"
publish = false

[dependencies]
base64 = "*"
hyper = "*"
serde = "*"
serde_json = "*"

[dev-dependencies]
url = "*"
