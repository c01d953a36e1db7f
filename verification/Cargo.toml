[package]
name = "easytier_edge"
version = "0.1.0"
edition = "2021"
publish = false

[dependencies]
aes-gcm = "0.10"
base64 = "0.22"
chacha20poly1305 = "0.10"
getrandom = "0.3"
hmac = "0.12"
js-sys = "0.3"
prost = "0.14"
prost-types = "0.14"
serde = { version = "1", features = ["derive"] }
serde_json = "1"
sha2 = "0.10"
snow = "0.10"
wasm-bindgen = "0.2"
x25519-dalek = { version = "2", features = ["static_secrets"] }
