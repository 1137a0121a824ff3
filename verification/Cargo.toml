[package]
name = "dione_lib"
version = "0.1.0"
edition = "2021"
publish = false

[dependencies]
aes-gcm = "=0.11.1"
aes-gcm-siv = "=0.12.1"
hkdf = "=0.13.0"
hmac = "=0.13.0"
sha2 = "=0.11.0"
p256 = { version = "=0.9.0", features = ["ecdh"] }
rand_core = { version = "=0.6.4", features = ["getrandom"] }
sss-rs = "=0.13.1"
x3dh-ke = "=0.1.5"
adler = "=1.0.2"
seahash = "=4.1.0"
