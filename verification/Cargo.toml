[package]
name = "deployment_status"
version = "0.1.0"
edition = "2021"
publish = false

[dependencies]
anyhow = "*"
k8s-openapi = { version = "*", features = ["latest"] }
kube = { version = "*", default-features = false, features = ["client", "rustls-tls"] }
log = "*"
serde = { version = "*", features = ["derive"] }
tera = "*"
tokio = { version = "*", features = ["macros", "rt-multi-thread"] }
