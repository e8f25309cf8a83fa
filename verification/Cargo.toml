[package]
name = "flowspec"
version = "0.1.0"
edition = "2021"
publish = false

[dependencies]
inetnum = "0.1"
serde = { version = "1", features = ["derive"] }
arbitrary = { version = "1", features = ["derive"] }
