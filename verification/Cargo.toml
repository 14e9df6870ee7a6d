[package]
name = "smoldot_core"
version = "0.1.0"
edition = "2021"
publish = false

[dependencies]
fnv = { version = "1.0", default-features = false }
hashbrown = { version = "0.14", default-features = false }
rand = { version = "0.8", default-features = false }
rand_chacha = { version = "0.3", default-features = false }
slab = { version = "0.4", default-features = false }
