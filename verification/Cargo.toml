[package]
name = "stargrid"
version = "0.1.0"
edition = "2021"
publish = false

[dependencies]
base64 = "0.22"
futures-util = { version = "0.3", features = ["sink"] }
iso8601-timestamp = { version = "0.2", features = ["serde"] }
log = "0.4"
primitive-types = "0.12"
regex = "1"
serde = { version = "1", features = ["derive"] }
serde_json = "1"
sha256 = { version = "1", default-features = false }
simplelog = "0.12"
thiserror = "1"
tokio = { version = "1", features = ["full"] }
tokio-tungstenite = { version = "0.21", features = ["rustls-tls-webpki-roots"] }
tungstenite = "0.21"
