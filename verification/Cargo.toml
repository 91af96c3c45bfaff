[package]
name = "po"
version = "0.1.0"
edition = "2021"
publish = false

[dependencies]
url = "*"
curl = "*"
docopt = "*"
serde = { version = "*", features = ["derive"] }
