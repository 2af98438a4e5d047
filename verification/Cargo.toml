[package]
name = "tollgrid"
version = "0.1.0"
edition = "2021"
publish = false

[dependencies]
bcrypt = "*"
chrono = "*"
serde = { version = "*", features = ["derive"] }
serde_json = "*"
