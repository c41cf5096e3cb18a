[package]
name = "iris"
version = "1.0.0"
edition = "2021"
publish = false

[dependencies]
clap = { version = "*", features = ["derive"] }
colored = "*"
indicatif = "*"
reqwest = { version = "*", default-features = false, features = ["blocking"] }
tar = "*"
xz2 = "*"
