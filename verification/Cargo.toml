[package]
name = "modular-agent-web"
version = "0.1.0"
edition = "2021"
publish = false

[dependencies]
quick-xml = "=0.38.4"
url = "=2.5.8"
scraper = "=0.29.0"
html-to-markdown-rs = "=3.19.1"
serde = { version = "=1.0.229", features = ["derive"] }
serde_json = "=1.0.154"
reqwest = { version = "=0.13.5", default-features = false, features = ["json", "query"] }
modular-agent-core = "=0.33.0"
agent-stream-kit = "=0.19.0"
