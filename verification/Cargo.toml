[package]
name = "ompas"
version = "0.1.0"
edition = "2021"
publish = false

[dependencies]
im = "15"
anyhow = "1"
serde = { version = "1", features = ["derive"] }
serde_json = "1"
structopt = "0.3"
tokio = { version = "1", features = ["full"] }
