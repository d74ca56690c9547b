[package]
name = "sm"
version = "0.1.0"
edition = "2021"
publish = false

[dependencies]
regex-syntax = "0.8"
serde = { version = "1", features = ["derive"] }
serde_json = "1"
toml = "0.8"
clap = { version = "4", features = ["cargo"] }
clap_complete = "4"
dotenv = "0.15"
dotenvy = "0.15"
tokio = { version = "1", features = ["full"] }
dirs = "5"
reqwest = { version = "0.12", default-features = false, features = ["json", "rustls-tls"] }
bytes = "1"
fastrand = "2"
rpassword = "7"
keyring = "3"
lazy_static = "1"

[dev-dependencies]
regex = "1"
