[package]
name = "course_scrape"
version = "0.1.0"
edition = "2021"
publish = false

[dependencies]
regex = "=1.13.1"
scraper = "=0.29.0"
reqwest = { version = "=0.13.5", features = ["gzip", "cookies", "query"] }
governor = "=0.10.4"
tokio = { version = "=1.54.1", features = ["macros", "rt-multi-thread"] }
config = { version = "=0.15.27", default-features = false }
serde = { version = "=1.0.229", features = ["derive"] }
serde_json = "=1.0.154"
log = "=0.4.34"
env_logger = "=0.11.11"
