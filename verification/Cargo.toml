[package]
name = "yahoo_finance_metrics"
version = "0.1.0"
edition = "2021"
publish = false

[dependencies]
chrono = "=0.4.45"
chrono-tz = "=0.10.4"
serde = { version = "=1.0.229", features = ["derive"] }
serde_json = "=1.0.151"
actix-web = "=4.15.0"
actix-rt = "=2.15.0"
handlebars = { version = "=6.4.4", features = ["dir_source"] }
headless_chrome = "=0.9.0"
reqwest = { version = "=0.13.5", default-features = false, features = ["json"] }
tokio = { version = "=1.53.2", features = ["macros", "time", "rt-multi-thread"] }
