[package]
name = "fleetix"
version = "0.1.0"
edition = "2021"
publish = false

[dependencies]
indexmap = "2"
sha2 = "0.10"
serde = { version = "1", features = ["derive"] }
serde_json = "1"
clap = { version = "4", features = ["derive"] }
miette = { version = "7", features = ["fancy"] }
tokio = { version = "1", features = ["rt-multi-thread", "macros"] }
tempfile = "3"
