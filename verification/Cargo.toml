[package]
name = "pixelflut_filler"
version = "0.1.0"
edition = "2021"
publish = false

[dependencies]
gif = "0.13"
image = { version = "0.24", default-features = false, features = ["gif", "jpeg", "png"] }
log = "0.4"
pretty_env_logger = "0.5"
rand = "0.8"
structopt = "0.3"
zstd = "0.13"
