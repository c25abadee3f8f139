[package]
name = "minimal_notes"
version = "0.1.0"
edition = "2021"
publish = false

[dependencies]
hnsw_rs = "*"
serde = { version = "1", features = ["derive"] }
serde_json = "1"
anyhow = "1"
reqwest = { version = "*", features = ["blocking", "json"] }
uuid = { version = "1", features = ["v4"] }
dirs = "*"
log = "0.4"
once_cell = "1"
lazy_static = "1"
