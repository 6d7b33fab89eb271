[package]
name = "hootvoice"
version = "0.1.0"
edition = "2021"
publish = false

[dependencies]
unicode_categories = "*"
num_cpus = "*"
serde = { version = "*", features = ["derive"] }
serde_yaml = "*"
serde_json = "*"
anyhow = "*"
