[package]
name = "scampii"
version = "0.1.0"
edition = "2021"
publish = false

[dependencies]
clap = { version = "4", features = ["derive", "env"] }
crossterm = "0.28"
libc = "0.2"
