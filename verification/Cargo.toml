[package]
name = "thundershare"
version = "0.1.0"
edition = "2021"
publish = false

[dependencies]
jsonwebtoken = { version = "=11.1.0", features = ["rust_crypto"] }
uuid = { version = "=1.27.0", features = ["v4", "serde"] }
actix-web = "=4.15.0"
actix-files = "=0.7.0"
actix-multipart = "=0.8.5"
anyhow = "*"
async-trait = "*"
chrono = { version = "=0.4.45", features = ["serde"] }
dotenv = "*"
env_logger = "*"
log = "*"
serde = { version = "=1.0.229", features = ["derive"] }
sqlx = { version = "=0.8.6", default-features = false, features = ["runtime-tokio-rustls", "postgres", "uuid", "chrono", "macros", "migrate"] }
thiserror = "*"
tokio = { version = "=1.53.2", features = ["full"] }
urlencoding = "*"
