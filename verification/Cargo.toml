[package]
name = "lox"
version = "0.1.0"
edition = "2021"
publish = false

[dependencies]
aead = { version = "0.5", features = ["getrandom", "alloc"] }
chacha20poly1305 = "0.10"
tar = "0.4"
xz2 = "0.1"
zeroize = "1"
