[package]
name = "virtdir"
version = "0.1.0"
edition = "2021"
publish = false

[dependencies]
path_abs = "0.5"
sha3 = "0.10"
libunftp = "0.19"
tokio = { version = "1", features = ["full"] }
async-trait = "0.1"
serde = { version = "1", features = ["derive"] }
serde_yaml = "0.9"
pretty_env_logger = "0.5"
cfg-if = "1"
tracing = "0.1"
tracing-attributes = "0.1"
