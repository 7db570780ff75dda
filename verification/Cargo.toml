[package]
name = "refglob"
version = "0.1.0"
edition = "2021"
publish = false

[dependencies]
anyhow = "1"
camino = "1"
clap = { version = "3.2", features = ["derive"] }
once_cell = "1"
