[package]
name = "log_resolver_rs"
version = "0.1.0"
edition = "2021"
publish = false

[dependencies]
regex = "1"
chrono = "0.4"
encoding_rs = "0.8"
diesel = { version = "2", features = ["mysql"] }
dotenvy = "0.15"
env_logger = "0.11"
log = "0.4"
anyhow = "1"
serde = { version = "1", features = ["derive"] }
