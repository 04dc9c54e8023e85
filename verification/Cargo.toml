[package]
name = "bayes_star"
version = "0.1.0"
edition = "2021"
publish = false

[dependencies]
rand = "0.8"
serde = { version = "1", features = ["derive"] }
serde_json = "1"
redis = "*"
clap = "2"
env_logger = "*"
log = "0.4"
colored = "*"
walkdir = "2"
once_cell = "1"
