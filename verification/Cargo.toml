[package]
name = "rust_maelstrom"
version = "0.1.0"
edition = "2021"
publish = false

[dependencies]
anyhow = "1"
crossbeam-channel = "0.5"
serde = { version = "1", features = ["derive"] }
serde-jsonlines = "*"
tokio = { version = "1", features = ["macros", "rt-multi-thread", "sync", "time"] }
