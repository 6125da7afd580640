[package]
name = "kiss_rss"
version = "0.1.0"
edition = "2021"
publish = false

[dependencies]
chrono = "=0.4.45"
roxmltree = "=0.13.1"
dirs = "=4.0.0"
xml-builder = "=0.5.4"
scraper = "=0.16.0"
url = "=2.5.8"
readable-readability = "=0.4.0"
reqwest = { version = "=0.11.27", default-features = false, features = ["blocking", "rustls-tls"] }
serde = "=1.0.229"
