[package]
name = "segment_manager"
version = "0.1.0"
edition = "2021"
publish = false

[dependencies]
rustls-pemfile = "2"
rustls-pki-types = "1"
rand = "0.8"
rustls = { version = "0.23", default-features = false, features = ["ring", "std"] }
parking_lot = "0.12"
