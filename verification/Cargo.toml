[package]
name = "ship"
version = "0.1.0"
edition = "2021"
publish = false

[dependencies]
ar = "0.9"
tar = "0.4"
xz2 = "0.1"
zstd = "*"
clap = { version = "4", features = ["derive"] }
serde = { version = "1", features = ["derive"] }
toml = "*"
deb-rust = "*"
appimage = "*"
