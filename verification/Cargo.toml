[package]
name = "eventgate"
version = "0.1.0"
edition = "2021"
publish = false

[dependencies]
base64 = "*"
biscuit-auth = "*"
fallible-iterator = "0.2"
hex = "*"
postgres = "*"
r2d2 = "*"
r2d2_postgres = "*"
rand = "*"

[dev-dependencies]
uuid = "*"
