[package]
name = "unzip"
version = "0.1.0"
edition = "2021"
publish = false

[dependencies]
zip = { version = "=8.6.0", default-features = false, features = ["deflate"] }
tokio = { version = "=1.53.2", features = ["macros", "rt-multi-thread", "fs", "io-util", "time", "sync", "process"] }
tokio-util = { version = "=0.7.19", features = ["compat"] }
async_zip = { version = "=0.0.19", features = ["tokio", "deflate"] }
zip-extract = "=0.4.1"
ripunzip = "=2.0.0"
anyhow = "=1.0.104"
tempfile = "=3.27.0"
num_cpus = "=1.17.0"
thiserror = "=2.0.21"
chrono = { version = "=0.4.45", default-features = false, features = ["clock"] }
serde = { version = "=1.0.229", features = ["derive"] }
csv = "=1.4.0"
askama = { version = "=0.16.1", default-features = false, features = ["derive", "std"] }
crossterm = "=0.29.0"
ratatui = "=0.30.2"
open = "=5.4.4"
