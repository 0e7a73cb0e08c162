[package]
name = "card_reader"
version = "0.1.0"
edition = "2021"
publish = false

[dependencies]
image = "0.24"
imageproc = "0.23"
leptess = "0.14"
clap = { version = "4", features = ["derive"] }
serde = { version = "1", features = ["derive"] }
serde_json = "1"
thiserror = "1"
