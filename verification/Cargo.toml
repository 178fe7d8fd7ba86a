[package]
name = "qsafe"
version = "0.1.0"
edition = "2021"
publish = false

[dependencies]
chacha20poly1305 = "=0.10.1"
argon2 = "=0.5.3"
hkdf = "=0.12.4"
sha2 = "=0.10.9"
hmac = "=0.12.1"
blake3 = "=1.8.7"
zstd = { version = "=0.13.4", features = ["zstdmt"] }
hex = "=0.4.3"
sharks = "=0.5.0"
bip39 = { version = "=2.2.2", features = ["rand"] }
x25519-dalek = { version = "=2.0.1", features = ["static_secrets"] }
ml-kem = "=0.2.3"
rand = "=0.8.8"
flate2 = "=1.1.10"
lzma-rs = "=0.3.0"
ruzstd = "=0.7.3"
lz4_flex = "=0.11.6"
md-5 = "0.10"
bzip2-rs = "=0.1.2"
tar = "=0.4.46"
zip = { version = "=2.6.1", default-features = false, features = ["deflate"] }
serde = { version = "=1.0.229", features = ["derive"] }
serde_json = "=1.0.154"
serde_bytes = "=0.11.19"
ciborium = "=0.2.2"
clap = { version = "=4.6.7", features = ["derive"] }
anyhow = "=1.0.104"
rpassword = "=7.5.4"
libc = "=0.2.191"
zeroize = "=1.9.1"

