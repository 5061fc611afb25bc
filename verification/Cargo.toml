[package]
name = "scrutiny"
version = "0.1.0"
edition = "2021"
publish = false

[dependencies]
base64 = "0.22"
rand = "0.8"
trust-dns-proto = "0.23"
trust-dns-client = "0.23"
trust-dns-resolver = "0.23"
tokio = { version = "1", features = ["rt-multi-thread", "macros", "net", "time", "io-util"] }
futures = "0.3"
clap = "4"
colored = "2"
