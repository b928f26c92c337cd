[package]
name = "ljc_relay"
version = "0.1.0"
edition = "2021"
publish = false

[dependencies]
anyhow = "*"
axum = { version = "*", features = ["ws"] }
bytes = "*"
dav-server = "*"
futures-util = "*"
http = "*"
hyper-util = { version = "*", features = ["server-auto", "tokio", "service"] }
local-ip-address = "*"
rcgen = "*"
rustls = "*"
rustls-pki-types = "*"
serde = { version = "*", features = ["derive"] }
serde_json = "*"
tokio = { version = "*", features = ["full"] }
tokio-rustls = "*"
tower-http = { version = "*", features = ["cors", "trace"] }
tracing = "*"
tracing-subscriber = { version = "*", features = ["env-filter"] }
uuid = { version = "*", features = ["v4"] }
