[package]
name = "dejavu"
version = "0.1.0"
edition = "2021"
publish = false

[dependencies]
sha2 = "*"
hex = "*"
image = "*"
clap = { version = "*", features = ["derive"] }
crossterm = "*"
ratatui = "*"
indicatif = "*"
rayon = "*"
walkdir = "*"
open = "*"
thiserror = "*"
