[package]
name = "immunoprot"
version = "0.1.0"
edition = "2021"
publish = false

[dependencies]
scraper = "*"
attohttpc = { version = "*", default-features = false }
reqwest = { version = "*", default-features = false, features = ["blocking"] }
serde = "*"
