[package]
name = "parser_diff"
version = "0.1.0"
edition = "2021"
publish = false

[dependencies]
regex = "=1.13.1"
serde_json = "=1.0.154"
serde = { version = "=1.0.229", features = ["derive"] }
tokio = { version = "=1.54.1", features = ["process", "rt-multi-thread", "macros", "sync", "time"] }
futures = "=0.3.34"
walkdir = "=2.5.0"
tracing = "=0.1.44"
tracing-subscriber = "=0.3.23"
tracing-error = "=0.2.1"
color-eyre = "=0.6.5"
clap = { version = "=4.6.7", features = ["derive"] }
anyhow = "1"
thiserror = "*"
enumset = "1"
url = "2"
reqwest = { version = "*", default-features = false, features = ["rustls-tls"] }
tokio-stream = "0.1"
octorust = "*"
