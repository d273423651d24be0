[package]
name = "track2gpx"
version = "0.1.0"
edition = "2021"
publish = false

[dependencies]
clap = { version = "*", features = ["derive"] }
color-eyre = "*"
geo-types = "*"
gpx = "*"
rusqlite = { version = "*", features = ["bundled"] }
time = "*"
