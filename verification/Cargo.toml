[package]
name = "html-navigator"
version = "0.1.0"
edition = "2021"
publish = false

[dependencies]
chrono = "0.4"
clap = { version = "4", features = ["derive"] }
html-escape = "0.2"
rusqlite = { version = "0.31", features = ["bundled"] }
sha2 = "0.10"
