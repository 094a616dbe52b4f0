[package]
name = "secure_channel"
version = "0.1.0"
edition = "2021"
publish = false

[dependencies]
rand = "*"
hex = "*"
url = "*"
attohttpc = { version = "*", default-features = false }
hashbrown = "*"
