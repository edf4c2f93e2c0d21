[package]
name = "concord"
version = "0.1.0"
edition = "2021"
publish = false

[dependencies]
chrono = { version = "0.4", default-features = false, features = ["clock", "std"] }
crossterm = "*"
emojis = "*"
ratatui = { version = "*", default-features = false, features = ["crossterm"] }
tokio = { version = "1", features = ["rt", "sync", "time"] }
twilight-model = "*"
unicode-segmentation = "1"
unicode-width = "*"
