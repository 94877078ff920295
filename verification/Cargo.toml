[package]
name = "newsauth"
version = "0.1.0"
edition = "2021"
publish = false

[dependencies]
argon2 = "0.5"
rand = "0.8"
hex = "*"
hmac = "*"
sha2 = "*"
urlencoding = "*"
unicode-segmentation = "*"
secrecy = "0.8"
serde = { version = "1", features = ["derive"] }
anyhow = "1"
thiserror = "1"
tokio = { version = "1", features = ["rt-multi-thread", "macros"] }
actix-web = { version = "4", default-features = false, features = ["macros", "cookies"] }
actix-web-flash-messages = { version = "*", features = ["cookies"] }
sqlx = { version = "*", default-features = false, features = ["runtime-tokio", "postgres", "uuid", "chrono"] }
uuid = { version = "1", features = ["v4"] }
chrono = { version = "0.4", default-features = false, features = ["clock"] }
htmlescape = "*"
tracing = "*"
tracing-actix-web = "*"
