[package]
name = "rusty_golf"
version = "0.1.0"
edition = "2021"
publish = false

[dependencies]
regex = "=1.13.1"
chrono = "=0.4.45"
serde = { version = "=1.0.229", features = ["derive"] }
serde_json = "=1.0.154"
clap = { version = "=4.6.7", features = ["derive"] }
tokio = { version = "=1.54.1", features = ["rt-multi-thread", "macros", "sync"] }
actix-web = "=4.18.1"
actix-files = "=0.6.10"
reqwest = { version = "=0.12.28", default-features = false, features = ["json", "rustls-tls"] }
maud = "=0.26.0"
futures = "=0.3.34"
sql-middleware = "=0.1.5"
deadpool-postgres = "=0.14.2"
