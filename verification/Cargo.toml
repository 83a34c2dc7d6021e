[package]
name = "realm_guard_core"
version = "1.0.0"
edition = "2021"
publish = false

[dependencies]
argon2 = "0.5"
bip39 = "2"
chacha20poly1305 = "0.10"
ed25519-dalek = "2"
getrandom = "0.2"
hkdf = "0.12"
sha2 = "0.10"
opaque-ke = { version = "*", features = ["argon2"] }
postcard = { version = "1", features = ["alloc"] }
rand = "0.8"
serde = { version = "1", features = ["derive"] }
thiserror = "1"
x25519-dalek = { version = "2", features = ["static_secrets"] }
zeroize = { version = "1", features = ["derive"] }
