[package]
name = "dkls_core"
version = "0.1.0"
edition = "2021"
publish = false

[dependencies]
dkls23-core = "=0.4.1"
k256 = "=0.14.0-rc.8"
elliptic-curve = "=0.14.0-rc.29"
ecdsa = "=0.17.0-rc.16"
rustcrypto-ff = "=0.14.0-rc.0"
rustcrypto-group = "=0.14.0-rc.0"
serde = { version = "=1.0.229", features = ["derive"] }
serde_json = "=1.0.151"
hex = "=0.4.3"
rand = "=0.10.3"
