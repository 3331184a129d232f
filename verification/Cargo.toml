[package]
name = "newsletter"
version = "0.1.0"
edition = "2021"
publish = false

[dependencies]
argon2 = "=0.5.3"
base64 = "=0.22.1"
hex = "=0.4.3"
hmac = "=0.12.1"
sha2 = "=0.10.9"
urlencoding = "=2.1.3"
unicode-segmentation = "=1.13.3"
rand = "=0.8.8"
uuid = { version = "=1.27.0", features = ["v4"] }
secrecy = "=0.8.0"
serde = { version = "=1.0.229", features = ["derive"] }
anyhow = "=1.0.104"
thiserror = "=1.0.69"
actix-web = "=4.15.0"
sqlx = { version = "=0.8.6", default-features = false, features = ["postgres", "runtime-tokio"] }
tokio = { version = "=1.53.2", features = ["macros", "rt-multi-thread", "time"] }
reqwest = { version = "=0.12.28", default-features = false, features = ["json"] }
