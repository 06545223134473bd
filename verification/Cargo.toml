[package]
name = "movie_log"
version = "0.1.0"
edition = "2021"
publish = false

[dependencies]
crc = "3"
csv = "1"
difflib = "0.4"
matroska = "*"
reqwest = { version = "0.12", default-features = false, features = ["blocking", "rustls-tls"] }
select = "0.6"
serde = { version = "1", features = ["derive"] }
toml = "0.8"
walkdir = "2"
