[package]
name = "minesweeper"
version = "0.1.0"
edition = "2021"
publish = false

[dependencies]
rand = "0.8.5"
regex = "1.10.6"
crossterm = "*"
directories = "*"
serde = { version = "1.0.104", features = ["derive"] }
serde_json = "1"
