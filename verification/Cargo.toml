[package]
name = "slot_sync"
version = "0.1.0"
edition = "2021"
publish = false

[dependencies]
hex = "0.3"
rocket = { version = "0.5", features = ["json"] }
serde = "1"
serde_derive = "1"
serialport = { version = "4", default-features = false }
