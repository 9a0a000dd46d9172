[package]
name = "gcm"
version = "0.1.0"
edition = "2021"
publish = false

[dependencies]
anyhow = "1"
chrono = "0.4"
clap = { version = "4", features = ["derive"] }
home = "0.5"
serde = { version = "1", features = ["derive"] }
termcolor = "1"
ureq = { version = "2", features = ["json"] }
zip = "*"
