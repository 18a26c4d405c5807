[package]
name = "easy2send"
version = "0.1.0"
edition = "2021"
publish = false

[dependencies]
uuid = { version = "1", features = ["v4"] }
mdns-sd = "0.13"
local-ip-address = "0.6"
tokio = { version = "1", features = ["full"] }
socket2 = "0.5"
anyhow = "1"
serde = { version = "1", features = ["derive"] }
serde_json = "1"
axum = "0.8"
multer = "3"
futures-util = "0.3"
http-body-util = "0.1"
tower-http = { version = "0.6", features = ["limit"] }
notify-rust = "4"
