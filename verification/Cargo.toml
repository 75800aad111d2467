[package]
name = "image_to_tetris"
version = "0.1.0"
edition = "2021"
publish = false

[dependencies]
anyhow = "=1.0.104"
clap = { version = "=4.6.7", features = ["derive"] }
csv = "=1.4.0"
dssim = "=3.5.1"
ffmpeg-next = "=9.0.0"
fundsp = "=0.23.0"
hound = "=3.5.1"
image = "=0.24.9"
indicatif = "=0.17.11"
itertools = "=0.15.0"
median = "=0.3.2"
ordered-float = "=4.6.0"
rand = "=0.8.8"
rayon = "=1.12.0"
rgb = "=0.8.53"
rust-lapper = "=1.3.0"
rustfft = "=6.4.1"
thiserror = "=1.0.69"
