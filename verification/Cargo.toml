[package]
name = "spark_sched"
version = "0.1.0"
edition = "2021"
publish = false

[dependencies]
uuid = { version = "*", features = ["v4"] }
anyhow = "*"
async-trait = "*"
awaitgroup = "*"
clap = { version = "*", features = ["derive"] }
futures = "*"
k8s-openapi = { version = "*", features = ["latest"] }
kube = { version = "*", features = ["client", "runtime"] }
tokio = { version = "*", features = ["macros", "rt-multi-thread", "sync", "time"] }
