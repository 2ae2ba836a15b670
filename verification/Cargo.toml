[package]
name = "fragment_directives"
version = "0.1.0"
edition = "2021"
publish = false

[dependencies]
rayon = "1"
thin-vec = "0.2"
cssparser = "*"
