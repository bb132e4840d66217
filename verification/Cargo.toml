[package]
name = "loader"
version = "0.1.0"
edition = "2021"
publish = false

[dependencies]
rand = "=0.8.8"
counter = "=0.5.7"
tokenizers = "=0.13.4"
serde = { version = "1", features = ["derive"] }
