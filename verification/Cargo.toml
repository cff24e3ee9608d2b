[package]
name = "tipsy"
version = "0.1.0"
edition = "2021"

[dependencies]
anyhow = "1"
clap = "3.2"
dirs = "4"
