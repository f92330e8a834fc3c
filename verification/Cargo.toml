[package]
name = "mmbak_parser"
version = "0.1.0"
edition = "2021"
publish = false

[dependencies]
byteorder = "=1.5.0"
crc32fast = "=1.5.4"
chrono = "=0.4.45"
clap = { version = "=4.6.7", features = ["derive"] }
colored = "=3.1.1"
google-sheets4 = { version = "=7.0.0", features = ["yup-oauth2-service-account"] }
ratatui = "=0.30.2"
rusqlite = { version = "=0.41.1", features = ["bundled"] }
rustls = { version = "=0.23.46", features = ["ring"] }
serde = { version = "=1.0.229", features = ["derive"] }
serde_json = "=1.0.154"
thiserror = "=2.0.21"
tokio = { version = "=1.54.1", features = ["rt-multi-thread"] }
toml = "=1.1.8"
