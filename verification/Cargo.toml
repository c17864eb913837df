[package]
name = "limbus_localization_manager"
version = "0.1.0"
edition = "2021"
publish = false

[dependencies]
md5 = "*"
zip = { version = "2", default-features = false, features = ["deflate"] }
serde = { version = "*", features = ["derive"] }
serde_json = "*"
toml = "*"
reqwest = { version = "*", default-features = false, features = ["rustls-tls", "json", "stream"] }
tokio = { version = "*", features = ["rt-multi-thread", "macros", "sync"] }
futures = "*"
dashmap = "*"
dirs = "*"
sysinfo = "*"
tempfile = "*"
anyhow = "*"
