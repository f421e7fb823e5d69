[package]
name = "rnp-src"
version = "0.1.0"
edition = "2021"
publish = false

[dependencies]
botan-src = "=0.31300.1"
flate2 = "=1.1.10"
tar = "=0.4.46"
ureq = "=3.5.1"
