[package]
name = "zpass"
version = "0.1.0"
edition = "2021"
publish = false

[dependencies]
aes-gcm = "=0.10.3"
argon2 = "=0.5.3"
hex = "=0.4.3"
uuid = { version = "=1.29.1", features = ["v4"] }
rqrr = "=0.11.0"
rusqlite = { version = "=0.41.1", features = ["bundled"] }
serde = { version = "=1.0.229", features = ["derive"] }
serde_json = "=1.0.154"
dirs = "=7.0.0"
image = "=0.24.9"
bardecoder = "=0.5.0"
screenshots = "*"
tokio = { version = "1", features = ["time", "rt"] }

[dev-dependencies]
