[package]
name = "authds"
version = "0.1.0"
edition = "2021"
publish = false

[dependencies]
digest = "0.10"
hex = "0.4"
serde = "1"
serde_json = "1"
sha1 = "0.10"
