[package]
name = "storage_cli"
version = "0.1.0"
edition = "2021"
publish = false

[dependencies]
indexmap = { version = "2", features = ["serde"] }
serde = { version = "1", features = ["derive"] }
serde_json = "1"
serde_norway = "*"
clap = { version = "4", features = ["derive"] }
rpassword = "7"
ureq = "3"
zip = { version = "2", default-features = false, features = ["deflate"] }
