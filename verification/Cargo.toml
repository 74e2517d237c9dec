[package]
name = "rocket_notify"
version = "0.1.0"
edition = "2021"
publish = false

[dependencies]
chrono = "*"
clap = { version = "*", features = ["derive", "env"] }
csscolorparser = "*"
hostname = "*"
reqwest = { version = "*", default-features = false, features = ["blocking"] }
