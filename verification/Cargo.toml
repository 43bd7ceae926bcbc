[package]
name = "redo"
version = "0.1.0"
edition = "2021"
publish = false

[dependencies]
chrono = "0.4"
fnv = "1"
serde = { version = "1", features = ["derive"] }
undo = "*"
