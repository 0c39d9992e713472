[package]
name = "snailquote"
version = "0.1.0"
edition = "2021"
publish = false

[dependencies]
unicode_categories = "0.1"

[dev-dependencies]
quickcheck = { version = "1", default-features = false }
