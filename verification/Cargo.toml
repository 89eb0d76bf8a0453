[package]
name = "pi_server"
version = "0.1.0"
edition = "2021"
publish = false

[dependencies]
axum = { version = "0.7", features = ["ws", "multipart"] }
chrono = "0.4"
dirs = "5"
futures-util = "0.3"
hostname = "0.4"
log = "0.4"
mdns-sd = "*"
parking_lot = "0.12"
qrcode = { version = "0.14", default-features = false, features = ["svg"] }
regex = "1"
rusqlite = { version = "*", features = ["bundled"] }
serde = { version = "1", features = ["derive"] }
serde_json = "1"
sha2 = "0.10"
tokio = { version = "1", features = ["full"] }
tower-http = { version = "0.5", features = ["cors"] }
uuid = { version = "1", features = ["v4"] }
zip = { version = "2", default-features = false, features = ["deflate"] }

[dev-dependencies]
tempfile = "3"
