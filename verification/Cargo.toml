[package]
name = "wdrc"
version = "0.1.0"
edition = "2021"
publish = false

[dependencies]
anyhow = "=1.0.104"
futures = "=0.3.34"
serde_json = "=1.0.154"
tokio = { version = "=1.54.1", features = ["macros", "rt-multi-thread"] }
wikimisc = { version = "=0.3.0", features = ["date", "database", "wikidata"] }
