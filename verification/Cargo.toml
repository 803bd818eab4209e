[package]
name = "mtime_travel"
version = "0.1.0"
edition = "2021"
publish = false

[dependencies]
anyhow = "*"
clap = { version = "*", features = ["derive"] }
data-encoding = "*"
filetime = "*"
regex = "*"
sha2 = "*"
walkdir = "*"
