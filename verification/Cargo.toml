[package]
name = "tagging_operator"
version = "0.1.0"
edition = "2021"
publish = false

[dependencies]
kube = { version = "=3.1.0", features = ["runtime", "derive"] }
k8s-openapi = { version = "=0.27.1", features = ["latest"] }
serde = { version = "=1.0.229", features = ["derive"] }
serde_json = "=1.0.151"
tokio = { version = "=1.53.2", features = ["macros", "rt-multi-thread"] }
futures = "=0.3.34"
thiserror = "=2.0.21"
tracing = "=0.1.44"
tracing-subscriber = "=0.3.23"
