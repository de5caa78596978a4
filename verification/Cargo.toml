[package]
name = "knot"
version = "0.1.0"
edition = "2021"
publish = false

[dependencies]
anyhow = "=1.0.104"
base64 = "=0.23.1"
clap = { version = "=4.6.7", features = ["derive"] }
clap_complete = "=4.6.11"
crossterm = "=0.29.0"
ignore = "=0.4.34"
indicatif = "*"
inquire = "=0.9.4"
parse-size = "=1.1.0"
rkyv = "=0.8.18"
serde = { version = "=1.0.229", features = ["derive"] }
serde_json = "=1.0.154"
toml = "=1.1.8"
xxhash-rust = { version = "=0.8.19", features = ["xxh3"] }
zstd = "=0.14.3"
