[package]
name = "aer"
version = "0.1.0"
edition = "2021"
publish = false

[dependencies]
ignore = "*"
actix-web = "*"
clap = { version = "*", features = ["derive"] }
env_logger = "*"
r2d2 = "*"
r2d2_redis = "*"
rand = "*"
reqwest = { version = "*", default-features = false, features = ["multipart", "stream"] }
serde = { version = "*", features = ["derive"] }
tokio = { version = "*", features = ["macros", "rt-multi-thread", "fs"] }
tokio-util = { version = "*", features = ["codec"] }
