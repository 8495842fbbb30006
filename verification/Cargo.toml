[package]
name = "snare"
version = "0.1.0"
edition = "2021"
publish = false

[dependencies]
rcgen = { version = "=0.14.10", default-features = false, features = ["crypto", "pem", "ring", "x509-parser"] }
base64 = "=0.23.1"
uuid = { version = "=1.27.0", features = ["v4"] }
tokio = { version = "=1.53.2", features = ["full"] }
tokio-rustls = { version = "=0.26.6", default-features = false, features = ["ring"] }
reqwest = { version = "=0.12.28", default-features = false, features = ["rustls-tls"] }
serde = { version = "=1.0.229", features = ["derive"] }
serde_json = "=1.0.151"
jsonwebtoken = "=11.1.0"
futures = "=0.3.34"
log = "=0.4.34"
env_logger = "=0.11.11"
