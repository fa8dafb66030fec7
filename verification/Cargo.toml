[package]
name = "happy_chart_core"
version = "0.1.0"
edition = "2021"
publish = false

[dependencies]
cocoon = "*"
chrono = "*"
zip = { version = "*", default-features = false, features = ["deflate"] }
csv = "*"
serde = { version = "*", features = ["derive"] }
serde_json = "*"
