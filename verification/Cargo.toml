[package]
name = "subfont"
version = "0.1.0"
edition = "2021"
publish = false

[dependencies]
md5 = "0.7"
ttf-parser = "*"
fontcull = "*"
serde = { version = "1", features = ["derive"] }
serde_json = "1"
anyhow = "1"
rayon = "1"
walkdir = "2"
