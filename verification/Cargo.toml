[package]
name = "trader_bot"
version = "0.1.0"
edition = "2021"
publish = false

[dependencies]
serde = { version = "1", features = ["derive"] }
reqwest = { version = "0.11.27", default-features = false, features = ["json"] }
tokio = { version = "1", features = ["rt", "rt-multi-thread"] }
futures = "0.3.34"
rand = "0.8.8"
toml = "0.5.11"
