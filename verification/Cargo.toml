[package]
name = "hayabusa-evtx"
version = "0.1.0"
edition = "2021"
publish = false

[dependencies]
byteorder = "1"
quick-xml = "0.37"
anyhow = "1"
clap = "4"
dialoguer = "0.11"
encoding = "0.2"
indoc = "2"
