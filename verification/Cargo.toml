[package]
name = "debpkg"
version = "0.1.0"
edition = "2021"
publish = false

[dependencies]
ar = "*"
tar = "*"
infer = "*"
flate2 = "*"
xz2 = { version = "*", features = ["static"] }
bzip2 = "*"
zstd = "*"
