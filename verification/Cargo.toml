[package]
name = "routerify_lite"
version = "0.1.0"
edition = "2021"
publish = false

[dependencies]
futures = "0.3"
futures-util = "0.3"
hyper = { version = "0.14", features = ["full"] }
percent-encoding = "2"
regex = "1"
