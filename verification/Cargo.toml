[package]
name = "idp_cli"
version = "0.1.0"
edition = "2021"
publish = false

[dependencies]
handlebars = "=4.5.0"
serde_json = "=1.0.154"
serde_yaml = "=0.9.34"
serde = { version = "=1.0.229", features = ["derive"] }
clap = { version = "=4.6.7", features = ["derive", "env"] }
reqwest = { version = "=0.11.27", default-features = false, features = ["json", "rustls-tls"] }
tokio = { version = "=1.54.1", features = ["rt-multi-thread", "macros", "fs", "io-util", "time"] }
uuid = { version = "=1.29.0", features = ["serde", "v4"] }
walkdir = "=2.5.0"
thiserror = "=1.0.69"
log = "=0.4.34"
env_logger = "=0.10.2"
aws-config = { version = "=1.12.0", features = ["behavior-version-latest"] }
aws-sdk-s3 = "=1.152.0"
aws-types = "=1.6.0"
lambda_http = "=1.3.2"
tempfile = "=3.27.0"
