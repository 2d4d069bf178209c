[package]
name = "backend"
version = "0.1.0"
edition = "2021"
publish = false

[dependencies]
argon2 = "0.5"
rand_core = { version = "0.6", features = ["getrandom"] }
chrono = "0.4"
validator = { version = "*", features = ["derive"] }
urlencoding = "2"
serde = { version = "1", features = ["derive"] }
serde_json = "1"
jsonwebtoken = "9"
axum = "0.8"
tokio = { version = "1", features = ["macros", "rt-multi-thread", "net"] }
reqwest = { version = "0.12", default-features = false, features = ["json", "rustls-tls"] }
sea-orm = { version = "1", default-features = false, features = ["macros", "with-chrono", "sqlx-postgres", "runtime-tokio-rustls"] }
futures = "0.3"
dotenv = "0.15"
utoipa = "5"
