[package]
name = "arka"
version = "0.1.0"
edition = "2021"
publish = false

[dependencies]
aes-gcm = "=0.11.1"
argon2 = "=0.6.0"
getrandom = "=0.4.3"
jni = "0.21"
rand = "=0.10.3"
rusqlite = { version = "=0.41.1", features = ["bundled"] }
serde = { version = "=1.0.229", features = ["derive"] }
serde_json = "=1.0.154"
sha2 = "=0.11.1"
zeroize = "=1.9.1"
