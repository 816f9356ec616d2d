[package]
name = "clockworker"
version = "0.1.0"
edition = "2021"

[dependencies]
ahash = "0.8"
nohash-hasher = "0.2"
futures = "0.3"
futures-util = "0.3"
fastrand = "2"
