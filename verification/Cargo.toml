[package]
name = "dyss"
version = "0.1.0"
edition = "2021"
publish = false

[dependencies]
dtw = "=0.1.0"
libc = "=0.2.190"
rayon = "=1.12.0"
utility = "=0.0.0"
