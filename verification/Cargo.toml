[package]
name = "trade_secrets"
version = "0.1.0"
edition = "2021"
publish = false

[dependencies]
anyhow = "*"
futures = "*"
k8s-openapi = { version = "*", features = ["latest"] }
kube = { version = "*", default-features = false, features = ["client", "config", "runtime", "derive", "rustls-tls"] }
serde = { version = "*", features = ["derive"] }
serde_json = "*"
serde_yaml = "*"
structopt = "*"
thiserror = "*"
tokio = { version = "*", features = ["macros", "rt-multi-thread", "time"] }
