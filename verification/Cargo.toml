[package]
name = "osmviews"
version = "0.1.3"
edition = "2021"
publish = false

[dependencies]
memmap2 = "*"
miniz_oxide = "*"
