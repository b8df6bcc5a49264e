[package]
name = "cubil"
version = "0.1.4"
edition = "2021"
publish = false

[dependencies]
clap = { version = "4", features = ["derive"] }
flate2 = "1"
serde = { version = "1", features = ["derive"] }
serde_json = "1"
tar = "0.4"
time = { version = "0.3", features = ["local-offset"] }
ureq = "2"
