[package]
name = "cppref"
version = "0.1.0"
edition = "2021"
publish = false

[dependencies]
clap = { version = "=4.6.7", features = ["derive"] }
ego-tree = "=0.11.0"
env_logger = "=0.11.11"
log = "=0.4.34"
reqwest = { version = "=0.12.28", default-features = false, features = ["rustls-tls"] }
scraper = "=0.27.0"
thiserror = "=2.0.21"
tokio = { version = "=1.53.2", features = ["rt", "time"] }
