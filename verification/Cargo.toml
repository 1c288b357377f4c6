[package]
name = "primer_engine"
version = "0.1.0"
edition = "2021"
publish = false

[dependencies]
handlebars = "6"
serde = { version = "1", features = ["derive"] }
serde_json = "1"
clap = { version = "4", features = ["derive"] }
