[package]
name = "universe"
version = "0.1.0"
edition = "2021"
publish = false

[dependencies]
chrono = "0.4"
fast_paths = "*"
geo = "*"
h3o = "*"
indexmap = "2"
rand = "0.9"
serde = { version = "1", features = ["derive"] }
serde_json = "1"
thiserror = "*"
tracing = "0.1"
url = "2"
uuid = { version = "1", features = ["v5", "v7", "serde"] }
