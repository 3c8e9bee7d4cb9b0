[package]
name = "agterm"
version = "0.1.0"
edition = "2021"
publish = false

[dependencies]
regex = "1"
petgraph = "0.6"
uuid = { version = "1", features = ["v4"] }
chrono = "0.4"
serde = { version = "1", features = ["derive"] }
serde_json = "1"
toml = "0.8"
dirs = "5"
