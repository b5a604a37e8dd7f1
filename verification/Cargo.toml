[package]
name = "riff"
version = "0.1.0"
edition = "2021"

[dependencies]
ansi_term = "0.12"
clap = "2"
itertools = "0.10"
