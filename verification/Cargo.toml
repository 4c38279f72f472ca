[package]
name = "cardgen"
version = "0.1.0"
edition = "2021"
publish = false

[dependencies]
serde = { version = "*", features = ["derive"] }
serde_json = "*"
pdf-extract = "*"
scraper = "*"
url = "*"
reqwest = { version = "*", default-features = false }
tokio = { version = "*", features = ["rt"] }
rusqlite = { version = "*", features = ["bundled"] }
