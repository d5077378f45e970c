[package]
name = "string_pool"
version = "0.1.0"
edition = "2021"

[dependencies]
ahash = { version = "=0.8.12", default-features = false }
hashbrown = "=0.14.5"
lazy-wrap = "=0.4.1"
parking_lot = "=0.12.5"

[dev-dependencies]
rand = "=0.8.8"
