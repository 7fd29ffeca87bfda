[package]
name = "fat32expander"
version = "0.1.0"
edition = "2021"
publish = false

[dependencies]
anyhow = "1"
clap = { version = "4", features = ["derive"] }
crc32fast = "1"
libc = "0.2"
thiserror = "1"
