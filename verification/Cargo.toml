[package]
name = "okf"
version = "0.1.0"
edition = "2021"
publish = false

[dependencies]
yaml_serde = "*"
serde = { version = "1", features = ["derive"] }
serde_json = "1"
thiserror = "*"
walkdir = "2"
wait-timeout = "*"
reqwest = { version = "*", default-features = false, features = ["blocking", "json"] }
rusqlite = { version = "*", features = ["bundled"] }
rust-s3 = { version = "*", default-features = false, features = ["sync-native-tls"] }
