[package]
name = "confidante"
version = "0.1.0"
edition = "2021"
publish = false

[dependencies]
anyhow = "=1.0.104"
argon2 = "=0.6.0"
base64 = "=0.23.1"
clap = { version = "=4.6.7", features = ["derive"] }
config = { version = "=0.15.27", default-features = false, features = ["toml"] }
rand = "=0.8.8"
rand_chacha = "=0.3.1"
rustls-native-certs = "*"
rustls-pemfile = "*"
serde = { version = "=1.0.229", features = ["derive"] }
sha1 = "=0.11.0"
sha2 = "=0.11.0"
thiserror = "=2.0.21"
tokio = { version = "=1.53.2", features = ["full"] }
tokio-rustls = { version = "=0.26.6", default-features = false, features = ["ring", "logging", "tls12"] }
uuid = { version = "=1.27.0", features = ["v4"] }
