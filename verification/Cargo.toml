[package]
name = "common"
version = "0.1.0"
edition = "2021"
publish = false

[dependencies]
scrypt = "=0.11.0"
serde = { version = "*", features = ["derive"] }
serde_json = "*"
aws_lambda_events = "*"
validator = "*"
