[package]
name = "message_archive"
version = "0.1.0"
edition = "2021"
publish = false

[dependencies]
byteorder = "1"
clap = { version = "4", features = ["derive"] }
rayon = "1"
serde = "1"
serde_derive = "1"
serde_json = "1"
