[package]
name = "mnemovault"
version = "0.1.0"
edition = "2021"
publish = false

[dependencies]
sha2 = "=0.10.9"
hkdf = "=0.12.4"
chacha20poly1305 = "=0.10.1"
getrandom = "=0.2.17"
axum = { version = "=0.7.9", features = ["multipart"] }
tokio = { version = "=1.53.2", features = ["fs", "rt", "io-util"] }
futures-util = "=0.3.34"
serde = { version = "=1.0.229", features = ["derive"] }
