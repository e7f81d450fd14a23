[package]
name = "yummy_indexing"
version = "0.1.0"
edition = "2021"
publish = false

[dependencies]
anyhow = "1"
diesel = { version = "2.2", default-features = false, features = ["r2d2"] }
rust_decimal = "1"
sea-orm = { version = "1.1", default-features = false, features = ["macros", "with-chrono", "with-rust_decimal", "sqlx-mysql", "runtime-tokio-rustls"] }
tokio = { version = "1", features = ["rt-multi-thread", "macros", "time"] }
rand = "0.8"
chrono = "0.4"
cron = "0.12"
dotenvy = "0.15"
serde = { version = "1", features = ["derive"] }
serde_json = "1"
toml = "0.8"
reqwest = { version = "0.12", default-features = false, features = ["json", "rustls-tls"] }
log = "0.4"
