[package]
name = "shield_optimizer"
version = "0.1.0"
edition = "2021"
publish = false

[dependencies]
quick-xml = "=0.38.4"
serde = { version = "=1.0.229", features = ["derive"] }
serde_json = { version = "=1.0.154", features = ["preserve_order"] }
thiserror = "=2.0.21"
async-trait = "=0.1.92"
dirs = "=7.0.0"
tokio = { version = "=1.54.1", features = ["process", "time", "rt", "macros"] }
tracing = "=0.1.44"
