[package]
name = "board_mirror"
version = "0.1.0"
edition = "2021"
publish = false

[dependencies]
anyhow = "=1.0.104"
rusqlite = { version = "=0.40.2", features = ["bundled"] }
tracing = "=0.1.44"
