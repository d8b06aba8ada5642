[package]
name = "lorn"
version = "0.1.0"
edition = "2021"
publish = false

[dependencies]
clap = { version = "=4.6.7", features = ["derive", "env"] }
futures = "0.3"
k8s-openapi = { version = "=0.29.0", features = ["v1_36"] }
kube = { version = "=5.0.0", features = ["ws"] }
tokio = { version = "=1.54.1", features = ["macros", "rt-multi-thread", "time"] }
tracing = "0.1"
tracing-subscriber = { version = "0.3", features = ["env-filter"] }
