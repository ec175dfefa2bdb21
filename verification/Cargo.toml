[package]
name = "uncia"
version = "0.1.0"
edition = "2021"
publish = false

[dependencies]
async-trait = "0.1"
aws-config = { version = "=1.13.0", default-features = false, features = ["rt-tokio"] }
aws-sdk-ecs = { version = "=1.156.0", default-features = false, features = ["rt-tokio"] }
aws-sdk-elasticloadbalancingv2 = { version = "=1.134.0", default-features = false, features = ["rt-tokio"] }
aws-sdk-lambda = { version = "=1.156.0", default-features = false, features = ["rt-tokio"] }
aws-sdk-rds = { version = "=1.159.0", default-features = false, features = ["rt-tokio"] }
clap = { version = "=4.6.7", features = ["derive"] }
crossterm = "=0.29.0"
ratatui = "=0.30.2"
serde = "=1.0.229"
serde_json = "=1.0.154"
thiserror = "=2.0.21"
tokio = { version = "=1.54.1", features = ["macros", "rt-multi-thread"] }
