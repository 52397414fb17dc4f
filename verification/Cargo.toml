[package]
name = "asfship"
version = "0.1.0"
edition = "2021"
publish = false

[dependencies]
anyhow = "=1.0.104"
cargo_metadata = "=0.23.1"
chrono = "=0.4.45"
clap = { version = "=4.6.7", features = ["derive"] }
flate2 = "=1.1.10"
git2 = { version = "=0.21.0", default-features = false }
hex = "=0.4.3"
reqwest = { version = "=0.12.28", default-features = false, features = ["rustls-tls", "json"] }
serde = { version = "=1.0.229", features = ["derive"] }
sha2 = "=0.11.0"
tar = "=0.4.46"
tokio = { version = "=1.53.2", features = ["macros", "rt-multi-thread", "process", "fs", "io-util", "time"] }
toml = "=1.1.6"
toml_edit = "=0.25.15"
urlencoding = "=2.1.3"
zip = { version = "=8.6.0", default-features = false, features = ["deflate"] }
