[package]
name = "sallyport"
version = "0.1.0"
edition = "2021"
publish = false

[dependencies]
libc = { version = "0.2", default-features = false }
