[package]
name = "fvp_unpacker"
version = "0.1.0"
edition = "2021"
publish = false

[dependencies]
anyhow = "*"
clap = { version = "*", features = ["derive"] }
comfy-table = "*"
encoding_rs = "*"
flate2 = "*"
memmap2 = "*"
png = "*"
rayon = "*"
