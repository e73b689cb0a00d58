[package]
name = "efa_core"
version = "0.1.0"
edition = "2021"
publish = false

[dependencies]
sha2 = "*"
rusqlite = { version = "*", features = ["bundled"] }
clap = { version = "*", features = ["derive"] }
tempfile = "*"
anyhow = "*"
