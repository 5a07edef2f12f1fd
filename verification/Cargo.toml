[package]
name = "learnnet"
version = "0.1.0"
edition = "2021"
publish = false

[dependencies]
sha2 = "0.10"
base64 = "0.22"
url = "2"
chrono = "0.4"
serde = { version = "1", features = ["derive"] }
serde_derive = "1"
serde_json = "1"
log = "0.4"
log4rs = "1"
clap = "2"
rocket = "0.5"
reqwest = { version = "0.11", default-features = false, features = ["blocking"] }
