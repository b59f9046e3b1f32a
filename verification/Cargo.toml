[package]
name = "rekordbox_core"
version = "0.1.0"
edition = "2021"
publish = false

[dependencies]
anyhow = "*"
clap = { version = "*", features = ["derive"] }
md-5 = "=0.11.0"
rand = "=0.8.8"
reqwest = { version = "*", default-features = false }
rustfft = "*"
serde = { version = "*", features = ["derive"] }
serde_json = "*"
symphonia = "0.5"
tokio = { version = "*", features = ["rt", "macros", "net", "io-util", "sync"] }
tracing = "*"
tracing-appender = "*"
tracing-subscriber = { version = "*", features = ["env-filter"] }
walkdir = "*"
xxhash-rust = { version = "=0.8.19", features = ["xxh3"] }
