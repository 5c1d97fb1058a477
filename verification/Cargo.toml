[package]
name = "sa_placer"
version = "0.1.0"
edition = "2021"
publish = false

[dependencies]
csv = "1"
rand = "0.8"
rayon = "1"
rustc-hash = "2"
rustworkx-core = "*"
tempfile = "3"
