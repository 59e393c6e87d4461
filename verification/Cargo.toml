[package]
name = "lxmfchat"
version = "0.1.0"
edition = "2021"
publish = false

[dependencies]
env_logger = "0.11"
log = "0.4"
rand_core = { version = "0.6", features = ["getrandom"] }

[dev-dependencies]
aes = "0.8"
cbc = { version = "0.1", features = ["alloc"] }
ed25519-dalek = "2"
hkdf = "0.12"
hmac = "0.12"
sha2 = "0.10"
x25519-dalek = { version = "2", features = ["static_secrets"] }
