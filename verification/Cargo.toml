[package]
name = "wastebin"
version = "0.1.0"
edition = "2021"
publish = false

[dependencies]
rand = "*"
syntect = { version = "*", default-features = false, features = ["default-fancy"] }
axum = "*"
tokio = { version = "*", features = ["rt"] }
serde = { version = "*", features = ["derive"] }
bytes = "*"
once_cell = "*"
