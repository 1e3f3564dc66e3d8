[package]
name = "path_rs"
version = "0.1.0"
edition = "2021"
publish = false

[dependencies]
dirs = "6"
dunce = "1"
globset = "0.4"
serde = { version = "1", features = ["derive"] }
serde_json = "1"
thiserror = "2"
tokio = { version = "1", features = ["rt"] }
unicode-normalization = "0.1"
walkdir = "2"

[dev-dependencies]
tempfile = "3"
