[package]
name = "password_vault"
version = "0.1.0"
edition = "2021"
publish = false

[dependencies]
hex = "0.4"
rand = "0.8"
rsa = "0.9"
sqlx = { version = "0.8", default-features = false, features = ["mysql", "runtime-tokio"] }
tokio = { version = "1", features = ["rt", "macros"] }

[dev-dependencies]
csv = "1"
