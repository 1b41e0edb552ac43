[package]
name = "broken_field"
version = "0.1.0"
edition = "2021"
publish = false

[dependencies]
rand = "0.7"
num-complex = "0.4"
rayon = "1"
colorgrad = "0.5"
