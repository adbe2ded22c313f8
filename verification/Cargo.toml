[package]
name = "btrfs_compsize"
version = "0.1.0"
edition = "2021"
publish = false

[dependencies]
anyhow = "1"
humansize = "2"
libc = "0.2"
rayon = "1"
