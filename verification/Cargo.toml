[package]
name = "quarto_yaml"
version = "0.1.1"
edition = "2021"
publish = false

[dependencies]
yaml-rust2 = "0.11"
quarto-source-map = "0.1"
quarto-error-reporting = "0.2"
serde = { version = "1", features = ["derive"] }
serde_json = "1"

[dev-dependencies]
regex = "1"
