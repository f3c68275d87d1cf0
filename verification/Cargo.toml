[package]
name = "repairers"
version = "0.1.0"
edition = "2021"
publish = false

[dependencies]
bincode = "1"
memmap2 = "0.9"
rand = "0.8"
serde = { version = "1", features = ["derive"] }
tokio = { version = "1", features = ["macros", "process", "rt-multi-thread"] }
