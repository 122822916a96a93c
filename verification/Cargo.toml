[package]
name = "gcode_timer"
version = "0.1.0"
edition = "2021"
publish = false

[dependencies]
clap = "*"
toml = "*"
serde = { version = "*", features = ["derive"] }
