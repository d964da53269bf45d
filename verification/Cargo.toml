[package]
name = "idol_catalog"
version = "0.1.0"
edition = "2021"
publish = false

[dependencies]
sha3 = "0.10"
argon2 = "0.5"
serde = { version = "1", features = ["derive"] }
actix-web = "4"
actix-multipart = "0.6"
actix-identity = "0.8"
actix-session = { version = "0.10", features = ["cookie-session"] }
actix-files = "0.6"
deadpool-postgres = "0.14"
tokio-postgres = "0.7"
dotenv = "0.15"
num_cpus = "1"
futures = "0.3"
