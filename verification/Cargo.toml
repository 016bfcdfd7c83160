[package]
name = "datafusion-functions-extra"
version = "0.1.0"
edition = "2021"
publish = false

[dependencies]
datafusion = { version = "=55.2.0", default-features = false }
log = "=0.4.34"
