[package]
name = "taphle"
version = "0.1.0"
edition = "2021"
publish = false

[dependencies]
encoding_rs = "=0.8.44"
plist = "=1.10.3"
symphonia = { version = "=0.6.1", features = ["all"] }
zip = { version = "=9.2.2", default-features = false, features = ["deflate"] }
