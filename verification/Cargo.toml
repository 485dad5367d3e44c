[package]
name = "ase_sheet"
version = "0.1.0"
edition = "2021"
publish = false

[dependencies]
anyhow = "=1.0.104"
asefile = "=0.3.8"
clap = { version = "=4.6.7", features = ["derive"] }
image = { version = "=0.24.9", default-features = false, features = ["png"] }
