[package]
name = "iq_slicer"
version = "0.1.0"
edition = "2021"
publish = false

[dependencies]
chrono = "*"
clap = { version = "*", features = ["derive"] }
hound = "*"
rustfft = "*"
