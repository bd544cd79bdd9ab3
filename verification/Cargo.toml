[package]
name = "mpv_music"
version = "0.1.0"
edition = "2021"
publish = false

[dependencies]
anyhow = "*"
clap = { version = "*", features = ["derive"] }
directories = "*"
flexi_logger = "*"
indicatif = "*"
lofty = "*"
log = "*"
rayon = "*"
serde = { version = "*", features = ["derive"] }
serde_json = "*"
skim = "*"
toml = "*"
walkdir = "*"
