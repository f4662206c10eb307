[package]
name = "awecut"
version = "0.1.0"
edition = "2021"
publish = false

[dependencies]
base64 = "0.22"
futures-util = "0.3"
indicatif = "0.17"
log = "0.4"
rustfft = "6"
rusty-chromaprint = "*"
symphonia = { version = "0.5", features = ["all"] }
tempdir = "0.3"
thiserror = "1"
tokio = { version = "1", features = ["full"] }
