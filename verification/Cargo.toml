[package]
name = "ugdb"
version = "0.1.0"
edition = "2021"
publish = false

[dependencies]
unicode-segmentation = "=1.13.3"
parse_int = "=0.9.0"
json = "=0.12.4"
nom = "=2.2.1"
nix = { version = "=0.31.3", features = ["signal"] }
