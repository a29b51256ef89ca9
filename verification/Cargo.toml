[package]
name = "minihttp"
version = "0.1.0"
edition = "2021"
publish = false

[dependencies]
anyhow = "*"
deadpool-postgres = "*"
dotenv = "*"
tokio = { version = "*", features = ["macros", "net", "io-util", "rt-multi-thread"] }
tokio-postgres = "*"
