[package]
name = "ggpk"
version = "1.2.1"
edition = "2021"
publish = false

[dependencies]
memmap = "0.7"
widestring = "*"
rayon = "*"
clap = "2"
regex = "*"
