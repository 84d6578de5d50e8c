[package]
name = "groupby"
version = "0.1.0"
edition = "2021"
publish = false

[dependencies]
regex = "=1.13.1"
clap = { version = "=3.2.25", features = ["cargo"] }
rayon = "=1.12.0"
