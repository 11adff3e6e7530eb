[package]
name = "typing_practice"
version = "0.1.0"
edition = "2021"
publish = false

[dependencies]
clap = "2.33"
crossterm = "0.13"
indexmap = "1"
serde = { version = "1", features = ["derive"] }
serde_json = "1"
walkdir = "2"
