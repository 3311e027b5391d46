[package]
name = "cnode_lib"
version = "0.1.0"
edition = "2021"
publish = false

[dependencies]
base64 = "0.22"
sha2 = "0.10"
dirs = "5"
serde = { version = "1", features = ["derive"] }
serde_json = "1"
toml = "0.8"
reqwest = { version = "0.12", default-features = false, features = ["json", "rustls-tls"] }
tokio = { version = "1", features = ["rt-multi-thread", "macros", "io-std", "io-util"] }
clap = { version = "4", features = ["derive"] }
env_logger = "0.11"
flate2 = "1"
tar = "0.4"
tempfile = "3"
thiserror = "1"

[dev-dependencies]
tempfile = "3"
