[package]
name = "booth_archiver"
version = "0.1.0"
edition = "2021"
publish = false

[dependencies]
ron = "0.8"
serde = { version = "1", features = ["derive"] }
serde_json = "1"
ureq = "2"
rayon = "1"
indicatif = { version = "0.17", features = ["rayon"] }
clap = { version = "4", features = ["derive"] }
rust_xlsxwriter = "*"
path-absolutize = "3"
