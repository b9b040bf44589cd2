[package]
name = "range_downloader"
version = "0.1.0"
edition = "2021"
publish = false

[dependencies]
anyhow = "1"
futures = "0.3"
reqwest = { version = "*", default-features = false, features = ["blocking"] }
tokio = { version = "1", features = ["fs", "io-util"] }
