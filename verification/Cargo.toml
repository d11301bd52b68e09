[package]
name = "ledger_core"
version = "0.1.0"
edition = "2021"
publish = false

[dependencies]
chrono = { version = "=0.4.45", features = ["serde"] }
serde = { version = "=1.0.229", features = ["derive"] }
actix-web = "=4.15.0"
sqlx = { version = "=0.9.0", default-features = false, features = ["postgres", "runtime-tokio", "macros", "chrono"] }
dotenv = "=0.15.0"
lazy_static = "=1.5.1"
