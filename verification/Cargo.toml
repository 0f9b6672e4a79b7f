[package]
name = "slpagora"
version = "0.1.0"
edition = "2021"
publish = false

[dependencies]
secp256k1 = "=0.33.1"
sha2 = "=0.10.9"
ripemd160 = "=0.9.1"
hex = "=0.4.3"
serde = { version = "*", features = ["derive"] }
reqwest = { version = "*", features = ["blocking", "json"] }
qrcode = { version = "*", default-features = false }
dirs = "*"
rand = "*"
