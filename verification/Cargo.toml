[package]
name = "panda_note"
version = "0.1.0"
edition = "2021"
publish = false

[dependencies]
jieba-rs = "0.7"
unicode-script = "0.5"
serde = { version = "1", features = ["derive"] }
serde_json = "1"
uuid = { version = "1", features = ["v4"] }
chrono = "0.4"
anyhow = "1"
thiserror = "2"
dirs = "5"
reqwest = { version = "0.12", default-features = false, features = ["json", "blocking", "rustls-tls"] }
rusqlite = { version = "0.32", features = ["bundled"] }
parking_lot = "0.12"
