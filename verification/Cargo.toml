[package]
name = "navette"
version = "0.1.0"
edition = "2021"
publish = false

[dependencies]
ahash = "0.8"
bytemuck = "1"
lru = "*"
num-complex = "0.4"
nalgebra = "0.33"
levenberg-marquardt = "0.14"
parking_lot = "0.12"
rayon = "1"
serde = { version = "1", features = ["derive"] }
serde_json = "1"
smallvec = "1"
xxhash-rust = { version = "0.8", features = ["xxh3"] }
