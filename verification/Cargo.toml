[package]
name = "wstunnel"
version = "0.1.0"
edition = "2021"
publish = false

[dependencies]
anyhow = "1"
axum = { version = "0.8", default-features = false, features = ["http1", "tokio"] }
bytes = "1"
clap = { version = "4", features = ["derive", "env"] }
crossterm = { version = "*", default-features = false, features = ["events", "windows"] }
fdlimit = "*"
futures = "0.3"
governor = { version = "*", default-features = false, features = ["std", "quanta"] }
http-body-util = "0.1"
hyper = { version = "1", features = ["client", "http1"] }
hyper-util = { version = "0.1", features = ["client", "client-legacy", "http1", "tokio"] }
k8s-openapi = { version = "*", features = ["latest"] }
kube = { version = "*", default-features = false, features = ["client", "runtime", "rustls-tls", "ring"] }
pin-project = "1"
russh = { version = "*", default-features = false, features = ["ring", "rsa"] }
rustls = { version = "0.23", default-features = false, features = ["ring", "std", "tls12"] }
serde = { version = "1", features = ["derive"] }
serde_yaml = "*"
tikv-jemallocator = "*"
tokio = { version = "1", features = ["full"] }
tracing = "0.1"
tracing-subscriber = { version = "0.3", features = ["env-filter"] }
url = "2"
uuid = { version = "1", features = ["v7", "serde"] }
