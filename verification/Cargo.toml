[package]
name = "access_token"
version = "0.1.0"
edition = "2021"
publish = false

[dependencies]
actix-web = "*"
awc = "*"
actix-web-httpauth = "*"
tokio = { version = "*", features = ["sync"] }
