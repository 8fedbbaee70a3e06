[package]
name = "mixtape"
version = "0.1.0"
edition = "2021"
publish = false

[dependencies]
uuid = { version = "1", features = ["v4"] }
regex = "1"
url = "2"
robotstxt = "*"
html2md = "*"
readability-rust = "*"
chrono = "0.4"
strsim = "*"
serde = { version = "1", features = ["derive"] }
serde_json = "1"
tokio = { version = "1", features = ["full"] }
tokio-stream = "*"
futures = "0.3"
axum = "*"
parking_lot = "*"
lazy_static = "1"
glob = "*"
ignore = "*"
infer = "*"
mime_guess = "2"
reqwest = { version = "*", default-features = false }
sysinfo = "*"
nix = { version = "*", features = ["signal", "process"] }
schemars = "*"
thiserror = "*"
http = "1"
aws-config = "*"
aws-credential-types = "*"
aws-sigv4 = "*"
aws-types = "*"
