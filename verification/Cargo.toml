[package]
name = "flashcard"
version = "0.1.0"
edition = "2021"
publish = false

[dependencies]
rand = "=0.8.8"
orgize = { version = "=0.9.0", default-features = false }
chrono = "=0.4.45"
rusqlite = { version = "=0.27.0", features = ["bundled", "chrono"] }
sea-query = { version = "=0.24.6", features = ["rusqlite", "with-chrono"] }
fallible-iterator = "=0.2.0"
walkdir = "=2.5.0"
serde = { version = "=1.0.229", features = ["derive"] }
eframe = "0.17"
egui = "0.17"
