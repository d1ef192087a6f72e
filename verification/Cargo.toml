[package]
name = "captain_hook"
version = "0.1.0"
edition = "2021"
publish = false

[dependencies]
globset = "*"
serde = { version = "*", features = ["derive"] }
serde_json = "*"
serde_yaml = "*"
clap = { version = "*", features = ["derive"] }
tokio = { version = "*", features = ["macros", "rt-multi-thread", "net", "time", "io-util"] }
anyhow = "*"
chrono = "*"
reqwest = { version = "*", default-features = false, features = ["json"] }
sha2 = "*"
flate2 = "*"
tar = "*"
tempfile = "*"
