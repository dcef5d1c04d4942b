[package]
name = "cargo_include_licenses"
version = "0.1.0"
edition = "2021"
publish = false

[dependencies]
cargo_metadata = "*"
clap = "*"
copy_dir = "*"
walkdir = "*"
