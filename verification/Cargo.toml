[package]
name = "tento_chrono"
version = "0.1.0"
edition = "2021"
publish = false

[dependencies]
chrono = "*"
serde = { version = "*", features = ["derive"] }
arbitrary = "*"
utoipa = "*"
