[package]
name = "deloxide"
version = "0.1.0"
edition = "2021"
publish = false

[dependencies]
anyhow = "1"
base64 = "0.22"
chrono = "0.4"
clap = { version = "4", features = ["derive"] }
crossbeam-channel = "0.5"
flate2 = "1"
fxhash = "0.2"
lazy_static = "1"
parking_lot = "0.12"
rand = "0.9"
rmp-serde = "1"
serde = { version = "1", features = ["derive"] }
serde_json = "1"
webbrowser = "1"
