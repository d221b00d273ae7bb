[package]
name = "tcolr"
version = "0.1.0"
edition = "2021"
publish = false

[dependencies]
ansi_term = "0.12"
bytes = "1"
clap = { version = "4", features = ["derive"] }
image = "0.24"
reqwest = { version = "0.11", features = ["blocking"] }
