[package]
name = "rust-semverx"
version = "0.1.0"
edition = "2021"
publish = false

[dependencies]
petgraph = "0.6"
unicode-normalization = "0.1"
serde = { version = "1", features = ["derive"] }
serde_json = "1"
serde_yaml = "0.9"
clap = { version = "4", features = ["derive"] }
colored = "2"
indicatif = "0.17"
tokio = { version = "1", features = ["macros", "rt-multi-thread", "time"] }
