[package]
name = "kiwi_downloader"
version = "0.1.0"
edition = "2021"
publish = false

[dependencies]
anyhow = "=1.0.104"
dotenvy = "=0.15.7"
fluent = "=0.16.1"
intl-memoizer = "=0.5.3"
log = "=0.4.35"
pretty_env_logger = "=0.5.0"
reqwest = { version = "=0.12.28", default-features = false, features = ["json", "rustls-tls"] }
serde = { version = "=1.0.229", features = ["derive"] }
serde_json = "=1.0.154"
sqlx = { version = "=0.8.6", default-features = false, features = ["runtime-tokio", "sqlite", "macros"] }
# Not used directly: teloxide-core depends on it, and takecell 0.1.2 needs a
# newer Rust than the toolchain this crate is built with, so 0.1.1 is kept.
takecell = "=0.1.1"
teloxide = { version = "=0.13.0", default-features = false, features = ["rustls", "ctrlc_handler"] }
tokio = { version = "=1.54.1", features = ["full"] }
unic-langid = "=0.9.6"
url = "=2.5.8"
uuid = { version = "=1.29.0", features = ["v4"] }
