[package]
name = "netcom_toolkit"
version = "0.1.0"
edition = "2021"
publish = false

[dependencies]
base64 = "=0.13.1"
chrono = "=0.4.45"
crossterm = "=0.27.0"
dirs = "=5.0.1"
dotenv = "=0.15.0"
linked-hash-map = "=0.5.6"
mysql_async = { version = "=0.37.1", default-features = false, features = ["minimal-rust"] }
rpassword = "=7.5.4"
serde = { version = "=1.0.229", features = ["derive"] }
serde_json = "=1.0.154"
ssh2 = "=0.9.6"
tokio = { version = "=1.54.1", features = ["full"] }
