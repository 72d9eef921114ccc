[package]
name = "nshare"
version = "0.1.0"
edition = "2021"
publish = false

[dependencies]
ndarray = { version = "0.16", default-features = false, features = ["std"] }
nalgebra = { version = "0.33", default-features = false, features = ["std"] }
image = { version = "0.25", default-features = false }
