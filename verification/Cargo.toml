[package]
name = "whale"
version = "0.1.0"
edition = "2021"
publish = false

[dependencies]
clap = "*"
colored = "*"
names = { version = "*", default-features = false }
shellexpand = "*"
skim = "*"
yaml-rust = "*"
