[package]
name = "image_merger"
version = "0.1.0"
edition = "2021"

[dependencies]
rayon = "1"
num-traits = "0.2"
image = { version = "0.24", default-features = false, features = ["png"] }
bytes = "1"
memmap = "0.7"
