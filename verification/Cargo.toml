[package]
name = "stryvo"
version = "0.6.0"
edition = "2021"
publish = false

[dependencies]
async-trait = "0.1"
bincode = "1"
brotli = "=3.5.0"
bytes = "=1.12.1"
chrono = "0.4"
clap = { version = "4", features = ["derive"] }
crc32fast = "=1.5.4"
flate2 = "=1.1.10"
futures-util = "0.3"
http = "=1.5.0"
miette = "7"
pingora-http = "=0.4.0"
regex = "=1.13.1"
serde = { version = "1", features = ["derive"] }
thiserror = "1"
tokio = { version = "1", features = ["full"] }
tracing = "0.1"
tracing-subscriber = "0.3"
zstd = "=0.13.4"
