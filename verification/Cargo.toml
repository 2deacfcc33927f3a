[package]
name = "skills_ref"
version = "0.1.0"
edition = "2021"
publish = false

[dependencies]
serde_yaml = "*"
unicode-normalization = "*"
clap = { version = "*", features = ["derive"] }
serde = { version = "*", features = ["derive"] }
serde_json = "*"
