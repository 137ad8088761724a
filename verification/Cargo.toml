[package]
name = "dungeon_generator"
version = "0.1.0"
edition = "2021"
publish = false

[dependencies]
rand = "0.7"
image = "0.23"
ron = "0.6"
serde = { version = "1", features = ["derive"] }
