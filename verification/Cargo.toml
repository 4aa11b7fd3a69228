[package]
name = "aster_analysis"
version = "0.1.0"
edition = "2021"
publish = false

[dependencies]
petgraph = "0.6"
full_moon = "2"
ignore = "0.4"
serde = { version = "1", features = ["derive"] }
serde_json = "1"
clap = { version = "4", features = ["derive"] }

[dev-dependencies]
tempfile = "3"
