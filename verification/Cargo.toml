[package]
name = "diagtool"
version = "0.1.0"
edition = "2021"
publish = false

[dependencies]
anyhow = "1"
freetype-rs = "*"
svg = "*"
thiserror = "*"
