[package]
name = "golstats"
version = "0.1.0"
edition = "2021"
publish = false

[dependencies]
csv = "=1.4.0"
scraper = "=0.27.0"
reqwest = { version = "=0.13.5", features = ["json", "form"] }
serde = { version = "=1.0.229", features = ["derive"] }
tokio = { version = "=1.53.2", features = ["macros", "rt-multi-thread"] }
