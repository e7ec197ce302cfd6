[package]
name = "aero2solver"
version = "0.1.0"
edition = "2021"
publish = false

[dependencies]
tl = "*"
anyhow = "*"
clap = { version = "*", features = ["derive", "env"] }
image = "*"
darknet = "*"
reqwest = { version = "*", default-features = false }
tokio = { version = "*", features = ["rt", "macros"] }
