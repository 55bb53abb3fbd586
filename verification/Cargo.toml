[package]
name = "papr"
version = "0.1.0"
edition = "2021"
publish = false

[dependencies]
anyhow = "1"
arboard = { version = "3", default-features = false }
chrono = { version = "0.4", default-features = false, features = ["std", "clock", "serde"] }
clap = { version = "4", features = ["derive"] }
clap_complete = "4"
crossterm = "0.29"
flate2 = "1"
image = { version = "0.25", default-features = false, features = ["pnm", "png", "jpeg"] }
notify = "8"
num-traits = "0.2"
ratatui = { version = "0.29", default-features = false, features = ["crossterm"] }
ratatui-image = { version = "8", default-features = false, features = ["crossterm"] }
reqwest = { version = "0.12", default-features = false, features = ["rustls-tls", "json"] }
serde = { version = "1", features = ["derive"] }
serde_json = "1"
sha2 = "0.10"
thiserror = "2"
tokio = { version = "1", features = ["rt-multi-thread", "macros", "sync", "time", "fs", "process", "io-util"] }
toml = "0.9"
walkdir = "2"
