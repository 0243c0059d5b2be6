[package]
name = "super_duper_dragon"
version = "0.1.0"
edition = "2021"
publish = false

[dependencies]
rand = "0.8"
csa = "*"
clap = { version = "4", features = ["derive"] }
anyhow = "1"
