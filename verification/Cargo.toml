[package]
name = "aube"
version = "0.1.0"
edition = "2021"
publish = false

[dependencies]
blake3 = "1"
hex = "0.4"
miette = "7"
pathdiff = "0.2"
rayon = "1"
serde = { version = "1", features = ["derive"] }
serde_json = "1"
tokio = { version = "1", features = ["rt-multi-thread", "sync", "macros", "time"] }
tracing = "0.1"
xx = "*"
