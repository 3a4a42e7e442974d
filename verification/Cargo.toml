[package]
name = "dalang"
version = "0.1.0"
edition = "2021"
publish = false

[dependencies]
pwhash = "*"
rand = "*"
r2d2 = "*"
r2d2_sqlite = { version = "*", features = ["bundled"] }
