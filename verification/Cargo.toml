[package]
name = "rustychess"
version = "0.1.0"
edition = "2021"
publish = false

[dependencies]
actix-web = "*"
actix-cors = "*"
actix-files = "*"
serde = { version = "*", features = ["derive"] }
uuid = { version = "*", features = ["v4"] }
env_logger = "*"
log = "*"
thiserror = "*"
