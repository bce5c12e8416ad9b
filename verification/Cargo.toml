[package]
name = "rustfully_syndicated"
version = "0.1.0"
edition = "2021"
publish = false

[dependencies]
scraper = "*"
tokio = { version = "*", features = ["macros", "rt-multi-thread", "net"] }
axum = "*"
reqwest = { version = "*", default-features = false }
anyhow = "*"

[dev-dependencies]
rss = "*"
chrono = "*"
