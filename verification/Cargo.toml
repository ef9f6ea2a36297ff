[package]
name = "weirdark"
version = "0.1.0"
edition = "2021"
publish = false

[dependencies]
rltk = { version = "0.8", default-features = false, features = ["crossterm", "serde"] }
specs = { version = "0.20", features = ["serde"] }
specs-derive = "0.4"
serde = { version = "1", features = ["derive"] }
serde_json = "1"
serde_with = { version = "3", features = ["json"] }
bimap = { version = "0.6", features = ["serde"] }
fnv = "1"
lazy_static = "1"
