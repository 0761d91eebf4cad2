[package]
name = "mercurial_bundles"
version = "0.1.0"
edition = "2021"
publish = false

[dependencies]
flate2 = "=1.1.10"
bzip2 = "=0.6.1"
