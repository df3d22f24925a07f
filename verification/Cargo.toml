[package]
name = "harbor"
version = "0.1.0"
edition = "2021"
publish = false

[dependencies]
git2 = "*"
glob = "*"
serde = { version = "1", features = ["derive"] }
serde_json = "1"
syntex_errors = "*"
syntex_syntax = "*"
