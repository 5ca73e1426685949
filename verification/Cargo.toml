[package]
name = "chat_plugins"
version = "0.1.0"
edition = "2021"
publish = false

[dependencies]
confy = "0.6"
rand = "0.8"
regex = "1"
serde = { version = "1", features = ["derive"] }
serde_derive = "1"
