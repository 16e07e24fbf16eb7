[package]
name = "mesh_core"
version = "0.1.0"
edition = "2021"
publish = false

[dependencies]
blake3 = "*"
image = { version = "*", default-features = false, features = ["png", "jpeg"] }
rusqlite = { version = "*", features = ["bundled"] }
serde = { version = "*", features = ["derive"] }
toml = "*"
walkdir = "*"
clap = { version = "*", features = ["derive"] }
directories = "*"
anyhow = "*"
