[package]
name = "parser_rs"
version = "0.1.0"
edition = "2021"
publish = false

[dependencies]
zip = { version = "*", default-features = false, features = ["deflate"] }
roxmltree = "*"
lopdf = "*"
html-escape = "*"
chrono = "*"
memmap2 = "*"
tokio = { version = "*", features = ["rt-multi-thread", "net", "macros"] }
serde = { version = "*", features = ["derive"] }
serde_json = "*"
regex = "*"
anyhow = "*"
log = "*"
env_logger = "*"
