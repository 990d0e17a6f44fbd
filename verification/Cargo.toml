[package]
name = "github_win_app"
version = "0.1.0"
edition = "2021"
publish = false

[dependencies]
reqwest = { version = "*", default-features = false, features = ["blocking", "rustls-tls"] }
chrono = "*"
dotenv = "*"
env_logger = "*"
log = "*"
