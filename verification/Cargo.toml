[package]
name = "fh5_collector"
version = "0.1.0"
edition = "2021"
publish = false

[dependencies]
csv = "1"
chrono = "0.4"
clap = { version = "4", features = ["derive"] }
