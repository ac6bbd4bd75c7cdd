[package]
name = "scylla"
version = "0.1.0"
edition = "2021"
publish = false

[dependencies]
base64 = "=0.22.1"
dirs = "=6.0.0"
serde = { version = "1", features = ["derive"] }
serde_json = "1"
crossterm = "=0.29.0"
ratatui = { version = "=0.29.0", default-features = false, features = ["crossterm"] }
rusqlite = { version = "*", features = ["bundled"] }
reqwest = { version = "=0.12.28", default-features = false, features = ["blocking", "json", "rustls-tls"] }
tokio = { version = "1", features = ["rt-multi-thread"] }
async-trait = "*"
curl = { version = "=0.4.51", default-features = false }
