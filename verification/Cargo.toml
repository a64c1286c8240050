[package]
name = "customer_repo"
version = "0.1.0"
edition = "2021"
publish = false

[dependencies]
mongodb = "3"
chrono = "0.4"
futures = "0.3"
serde = { version = "1", features = ["derive"] }
