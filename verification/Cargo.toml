[package]
name = "httper"
version = "0.1.0"
edition = "2021"
publish = false

[dependencies]
url = "*"
reqwest = { version = "*", default-features = false, features = ["blocking", "multipart"] }
clap = "*"
anyhow = "*"
thiserror = "*"
chrono = "*"
mime = "*"
mime_guess = "*"
