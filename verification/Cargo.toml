[package]
name = "dotdotvote"
version = "0.1.0"
edition = "2021"
publish = false

[dependencies]
async-std = { version = "=1.13.2", features = ["attributes"] }
chrono = { version = "=0.4.45", features = ["serde"] }
dotenv = "=0.15.0"
handlebars = { version = "=3.5.5", features = ["dir_source"] }
log = "=0.4.34"
pretty_env_logger = "=0.4.0"
serde = { version = "=1.0.229", features = ["derive"] }
serde_json = "=1.0.154"
serde_qs = "=0.8.5"
sqlx = { version = "=0.8.6", default-features = false, features = ["postgres", "runtime-async-std", "uuid", "chrono"] }
tide = "=0.16.0"
uuid = { version = "=1.29.0", features = ["v4", "serde"] }
