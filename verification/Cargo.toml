[package]
name = "textlayout_cache"
version = "0.1.0"
edition = "2021"
publish = false

[dependencies]
i-slint-core = "*"
euclid = "*"
