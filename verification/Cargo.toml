[package]
name = "rbxfs"
version = "0.1.0"
edition = "2021"
publish = false

[dependencies]
clap = "2"
notify = "4"
rand = "0.8"
rouille = "3"
serde = { version = "1", features = ["derive"] }
serde_json = "1"
