[package]
name = "storir"
version = "0.1.0"
edition = "2021"
publish = false

[dependencies]
clap = { version = "4", features = ["derive"] }
hound = "3.5"
ndarray = "0.15"
ndarray-rand = "0.14"
ndarray-stats = "0.5"
