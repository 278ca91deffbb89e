[package]
name = "aurene"
version = "0.1.0"
edition = "2021"
publish = false

[dependencies]
clap = "2.33"
failure = "0.1"
glob = "0.2.11"
