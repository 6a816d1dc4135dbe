[package]
name = "tar_split"
version = "0.1.0"
edition = "2021"
publish = false

[dependencies]
ring = "*"
data-encoding = "*"
clap = { version = "*", features = ["derive"] }
parse-size = "*"
rayon = "*"
tar = "*"
zstd = "*"
vmm-sys-util = "*"
