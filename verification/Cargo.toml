[package]
name = "mdevctl"
version = "0.1.0"
edition = "2021"
publish = false

[dependencies]
uuid = "1"
serde_json = "1"
thiserror = "*"
log = "0.4"
anyhow = "1"
