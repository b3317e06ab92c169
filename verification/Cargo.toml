[package]
name = "zellij_favs"
version = "0.1.0"
edition = "2021"
publish = false

[dependencies]
owo-colors = "*"
serde = { version = "1", features = ["derive"] }
serde_json = "1"
uuid = { version = "1", features = ["v4", "serde"] }
zellij-tile = "*"
