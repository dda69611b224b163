[package]
name = "sereal_decoder"
version = "0.1.0"
edition = "2021"
publish = false

[dependencies]
byteorder = "1"
clap = "2"
flate2 = "1"
serde = "1"
snap = "1"
typed-arena = "2"
zstd = "*"
