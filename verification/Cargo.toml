[package]
name = "music_quiz"
version = "0.1.0"
edition = "2021"
publish = false

[dependencies]
indexmap = "*"
itertools = "*"
toml = { version = "*", features = ["preserve_order"] }
