[package]
name = "slipmesh_routeros"
version = "0.1.1"
edition = "2021"
publish = false

[dependencies]
anyhow = "1"
clap = { version = "4", features = ["derive"] }
k8s-openapi = { version = "0.27", features = ["latest"] }
kube = { version = "3", default-features = false, features = ["client"] }
mikrotik-rs = { version = "=0.8.0", features = ["tokio-tls"] }
rustls = "0.23"
rustls-native-certs = "0.8"
serde = { version = "1", features = ["derive"] }
serde_json = "1"
serde_yaml = "0.9"
tokio = { version = "1", features = ["full"] }
tracing = "0.1"
tracing-subscriber = { version = "0.3", features = ["env-filter"] }
