[package]
name = "server_nano"
version = "0.1.0"
edition = "2021"
publish = false

[dependencies]
bytes = "1"
httparse = "1"
itoa = "1"
log = "0.4"
may = "0.3"
serde = "1"
serde_json = "1"
