[package]
name = "node_rs"
version = "0.1.0"
edition = "2021"
publish = false

[dependencies]
sha1 = "0.6"
serde = "1"
serde_json = "1"
serde_derive = "1"
