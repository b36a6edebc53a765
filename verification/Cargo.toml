[package]
name = "slice_player"
version = "0.1.0"
edition = "2021"
publish = false

[dependencies]
midly = { version = "0.5", default-features = false, features = ["alloc", "std"] }
zip = { version = "2", default-features = false }
serde = { version = "1", features = ["derive"] }
serde_json = "1"
symphonia = "0.5"
