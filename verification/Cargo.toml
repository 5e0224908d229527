[package]
name = "skia_rs"
version = "0.1.0"
edition = "2021"
publish = false

[dependencies]
naga = { version = "*", features = ["wgsl-in", "spv-out"] }
geo = "*"
smallvec = { version = "1", features = ["union"] }
bitflags = "2"
thiserror = "2"
