[package]
name = "issue_grid"
version = "0.1.0"
edition = "2021"
publish = false

[dependencies]
regex = "1"
slug = "0.1"
serde = { version = "1", features = ["derive"] }
serde_json = "1"
serde_yaml = "0.8"
