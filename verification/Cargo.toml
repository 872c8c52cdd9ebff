[package]
name = "snekdown"
version = "0.1.0"
edition = "2021"
publish = false

[dependencies]
htmlescape = "*"
minify = "*"
syntect = { version = "*", default-features = false, features = ["default-fancy"] }
colored = "*"
crossbeam-utils = "*"
