[package]
name = "bingo_board"
version = "0.1.0"
edition = "2021"
publish = false

[dependencies]
rusttype = "0.9"
image = { version = "*", default-features = false, features = ["png"] }
walkdir = "2"
dirs-next = "2"
rand = "0.9"
serde = { version = "1", features = ["derive"] }
serde_json = "1"
