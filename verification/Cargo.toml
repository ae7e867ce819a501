[package]
name = "region_palette"
version = "0.1.0"
edition = "2021"
publish = false

[dependencies]
clap = { version = "4", features = ["derive"] }
colored = "*"
image = { version = "0.25", default-features = false, features = ["png", "jpeg"] }
oklab = "*"
