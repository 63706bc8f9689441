[package]
name = "cvsd_extractor"
version = "0.1.0"
edition = "2021"
publish = false

[dependencies]
anyhow = "1"
argh = "*"
audioadapter-buffers = "*"
hound = "3"
rubato = "*"
tracing = "0.1"
tracing-subscriber = { version = "0.3", features = ["env-filter"] }
