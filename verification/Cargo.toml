[package]
name = "kv_cab"
version = "0.1.0"
edition = "2021"
publish = false

[dependencies]
log = "0.4"

[dev-dependencies]
bincode = { version = "0.6", default-features = false, features = ["rustc-serialize"] }
rustc-serialize = "0.3"
