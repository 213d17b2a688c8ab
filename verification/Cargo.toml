[package]
name = "bria_wallet"
version = "0.1.0"
edition = "2021"
publish = false

[dependencies]
base64 = "0.21"
bdk = { version = "0.27", default-features = false }
bitcoin = "0.29"
reqwest = { version = "0.11", default-features = false, features = ["json", "rustls-tls"] }
rust_decimal = "1"
serde = { version = "1", features = ["derive"] }
sqlx = { version = "0.6", default-features = false, features = ["runtime-tokio-rustls", "postgres", "uuid", "json"] }
thiserror = "1"
tokio = { version = "1", features = ["rt", "rt-multi-thread"] }
uuid = { version = "1", features = ["serde"] }
