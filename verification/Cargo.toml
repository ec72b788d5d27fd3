[package]
name = "acfun_live_toolbox"
version = "0.1.0"
edition = "2021"
publish = false

[dependencies]
aes = "=0.8.4"
cbc = { version = "=0.1.2", features = ["std"] }
cipher = { version = "=0.4.4", features = ["rand_core"] }
base64 = "=0.13.1"
hmac = "=0.12.1"
sha2 = "=0.10.9"
rand = "=0.8.8"
flate2 = "=1.1.10"
protobuf = "=3.7.2"
serde = { version = "=1.0.229", features = ["derive"] }
serde_json = "=1.0.154"
hyper = { version = "=0.14.32", features = ["client", "http1", "http2", "tcp"] }
hyper-tls = "=0.5.0"
tokio = { version = "=1.54.1", features = ["full"] }
rusqlite = { version = "=0.29.0", features = ["bundled"] }
uuid = { version = "=1.29.0", features = ["v4"] }
log = "=0.4.35"
chrono = "=0.4.45"
timer = "=0.2.0"
