[package]
name = "kd"
version = "0.1.0"
edition = "2021"
publish = false

[dependencies]
anyhow = "*"
colored = "*"
json_comments = "*"
rand = "*"
serde_json = "*"
shell-words = "*"
