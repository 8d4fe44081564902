[package]
name = "xbible"
version = "0.1.0"
edition = "2021"
publish = false

[dependencies]
quick-xml = "*"
scraper = "*"
ego-tree = "*"
directories = "*"
reqwest = { version = "*", default-features = false, features = ["blocking"] }
