[package]
name = "actix-ogn"
version = "0.5.0"
edition = "2021"
publish = false

[dependencies]
actix = "=0.13.5"
actix-service = "=2.0.3"
actix-tls = "=3.6.1"
bytes = "=1.12.1"
encoding_rs = "=0.8.42"
log = "=0.4.34"
tokio = { version = "=1.54.1", features = ["io-util", "net"] }
tokio-util = { version = "=0.7.20", features = ["codec"] }
