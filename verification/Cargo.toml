[package]
name = "timeit"
version = "0.1.0"
edition = "2021"
publish = false

[dependencies]
chrono = "*"
chrono-tz = "*"
clap = { version = "*", features = ["derive"] }
colored = "*"
rusqlite = { version = "*", features = ["bundled"] }
