[package]
name = "rustnps"
version = "0.1.0"
edition = "2021"
publish = false

[dependencies]
base64 = "0.22"
md5 = "0.7"
serde = { version = "1", features = ["derive"] }
serde_json = "1"
chrono = "0.4"
rustls = "0.23"
rustls-pemfile = "2"
rcgen = "0.13"
snap = "1"
kcp-io = "*"
tokio = { version = "1", features = ["full"] }
sysinfo = "0.30"
axum = "0.7"
axum-extra = { version = "0.9", features = ["cookie"] }
tower-http = { version = "0.5", features = ["fs"] }
