[package]
name = "recipe_book"
version = "0.1.0"
edition = "2021"
publish = false

[dependencies]
serde = { version = "1", features = ["derive"] }
serde_json = "1"
scraper = "*"
reqwest = { version = "*", default-features = false, features = ["blocking"] }
time = { version = "0.3", features = ["formatting"] }
