[package]
name = "guitar_note"
version = "0.1.0"
edition = "2021"
publish = false

[dependencies]
itertools = "*"
clap = "2"
