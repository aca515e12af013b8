[package]
name = "kcptun-std"
version = "0.1.0"
edition = "2021"
publish = false

[dependencies]
bytes = "1"
chrono = "0.4"
crc32c = "0.6"
crossbeam-queue = "0.3"
pbkdf2 = { version = "0.12", features = ["hmac"] }
regex = "1"
sha1 = "0.10"
signal-hook = "0.3"
snap = "1"
tokio = { version = "1", features = ["io-util", "macros", "net", "rt-multi-thread", "signal", "sync", "time"] }
