[package]
name = "dept_tracker"
version = "0.1.0"
edition = "2021"
publish = false

[dependencies]
chrono = { version = "=0.4.45", default-features = false, features = ["std", "clock"] }
serde = { version = "=1.0.229", features = ["derive"] }
serde_json = "=1.0.154"
thiserror = "=1.0.69"
uuid = { version = "=1.29.0", features = ["v4"] }
argon2 = "=0.5.3"
password-hash = { version = "=0.5.0", features = ["getrandom"] }
axum = "=0.7.9"
sqlx = { version = "=0.8.6", default-features = false, features = ["sqlite", "runtime-tokio", "macros"] }
tower-http = { version = "=0.5.2", features = ["fs", "trace"] }
