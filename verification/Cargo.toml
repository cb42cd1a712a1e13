[package]
name = "sfs"
version = "0.1.0"
edition = "2021"
publish = false

[dependencies]
flate2 = "*"
zip = "*"
rusqlite = { version = "*", features = ["bundled"] }
