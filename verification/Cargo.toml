[package]
name = "raw_pkg"
version = "0.1.0"
edition = "2021"
publish = false

[dependencies]
anyhow = "1"
bzip2 = "*"
flate2 = "1"
indicatif = "0.17"
question = "*"
recursive_copy = "*"
reqwest = { version = "0.12", default-features = false, features = ["blocking", "rustls-tls"] }
tar = "0.4"
walkdir = "2"
xz2 = "0.1"
zstd = "*"
