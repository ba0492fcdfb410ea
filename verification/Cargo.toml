[package]
name = "metal_atlas"
version = "0.1.0"
edition = "2021"
publish = false

[dependencies]
anyhow = "1"
block2 = "*"
derive_more = { version = "*", features = ["deref", "deref_mut"] }
etagere = "0.2"
metal = "*"
objc2 = "*"
parking_lot = "0.12"
