[package]
name = "mgrs2latlong"
version = "0.1.0"
edition = "2021"
publish = false

[dependencies]
geoconvert = "*"
csv = "*"
clap = { version = "*", features = ["derive"] }
anyhow = "*"
