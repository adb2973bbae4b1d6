[package]
name = "dsh-rs"
version = "0.1.0"
edition = "2021"
publish = false

[dependencies]
cordis = "*"
bytes = "1"
futures = "0.3"
futures-util = "0.3"
libloading = "0.8"
ratatui = "0.29"
regex = "1"
reqwest = { version = "0.12", default-features = false, features = ["json", "stream"] }
serde = { version = "1", features = ["derive"] }
serde_json = "1"
thiserror = "2"
tokio = { version = "1", features = ["full"] }
unicode-segmentation = "1"
unicode-width = "0.2"
