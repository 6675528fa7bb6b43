[package]
name = "dipbot"
version = "0.1.0"
edition = "2021"
publish = false

[dependencies]
chrono = { version = "=0.4.45", features = ["serde"] }
numfmt = "=1.2.0"
serenity = { version = "=0.12.5", default-features = false, features = ["builder", "cache", "chrono", "client", "gateway", "model", "http", "utils", "rustls_backend"] }
poise = "=0.6.2"
sea-orm = { version = "=2.0.4", default-features = false, features = ["macros", "with-chrono", "with-rust_decimal", "postgres-array"] }
rust_decimal = { version = "=1.43.0", features = ["serde"] }
tokio = { version = "=1.54.1", features = ["macros", "rt-multi-thread"] }
reqwest = { version = "=0.12.28", default-features = false, features = ["rustls-tls"] }
dotenvy = "=0.15.7"
serde = { version = "=1.0.229", features = ["derive"] }
