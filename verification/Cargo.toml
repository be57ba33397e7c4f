[package]
name = "serde_ipld_dagcbor"
version = "0.1.0"
edition = "2021"
publish = false

[dependencies]
serde = "1"
cid = { version = "0.11", features = ["serde"] }
