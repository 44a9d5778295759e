[package]
name = "synthesis"
version = "0.1.0"
edition = "2021"
publish = false

[dependencies]
rand = "=0.8.8"
serde = { version = "=1.0.229", features = ["derive"] }
serde_json = "=1.0.154"
parking_lot = "=0.12.5"
clap = { version = "=4.6.7", features = ["derive"] }
ctrlc = "=3.5.2"
