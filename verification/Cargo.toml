[package]
name = "fletcher"
version = "0.1.0"
edition = "2021"

[dev-dependencies]
byteorder = "1"
quickcheck = { version = "1", default-features = false }
