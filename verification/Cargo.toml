[package]
name = "dotenvage"
version = "0.1.0"
edition = "2021"
publish = false

[dependencies]
age = { version = "=0.11.5", features = ["armor"] }
anyhow = "=1.0.104"
base64 = "=0.22.1"
clap = { version = "=4.6.7", features = ["derive"] }
dotenvy = "=0.15.7"
pyo3 = "=0.30.1"
serde_json = "=1.0.154"
tempfile = "=3.27.0"
thiserror = "=1.0.69"
