[package]
name = "implicit_mesh"
version = "0.1.0"
edition = "2021"
publish = false

[dependencies]
serde = "1"
serde_derive = "1"
bincode = "1"
structopt = "0.3"
cgmath = "*"
itertools = "*"
