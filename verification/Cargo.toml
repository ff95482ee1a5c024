[package]
name = "cargo_units"
version = "0.1.0"
edition = "2021"
publish = false

[dependencies]
clap = { version = "2.33", default-features = false }
log = "0.4"
