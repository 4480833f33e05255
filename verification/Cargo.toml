[package]
name = "hashcrack"
version = "0.1.0"
edition = "2021"
publish = false

[dependencies]
sha1 = "=0.10.7"
rayon = "=1.12.0"
