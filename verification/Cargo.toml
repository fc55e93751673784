[package]
name = "kaiju"
version = "0.1.0"
edition = "2021"
publish = false

[dependencies]
byteorder = "=1.5.0"
itertools = "=0.8.2"
clap = "=2.34.0"
serde = { version = "=1.0.229", features = ["derive"] }
serde_json = "=1.0.154"
libloading = "*"
lazy_static = "1"
