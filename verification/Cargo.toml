[package]
name = "profanity_filter"
version = "0.1.0"
edition = "2021"
publish = false

[dependencies]
censor = "*"
actix-web = "*"
serde = { version = "*", features = ["derive"] }
