[package]
name = "ruggine_modulare"
version = "0.1.0"
edition = "2021"
publish = false

[dependencies]
aes-gcm = "*"
argon2 = "*"
base64 = "=0.23.1"
chrono = "=0.4.45"
hkdf = "*"
sha2 = "*"
uuid = { version = "=1.27.0", features = ["v4"] }
tokio = { version = "=1.53.2", features = ["rt-multi-thread", "net", "io-util", "macros", "time", "sync"] }
