[package]
name = "route_deviation"
version = "0.1.0"
edition = "2021"
publish = false

[dependencies]
geo = { version = "*", default-features = false }
serde = { version = "1", features = ["derive"] }
