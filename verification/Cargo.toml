[package]
name = "webhook_verify"
version = "0.1.0"
edition = "2021"
publish = false

[dependencies]
constant_time_eq = "*"
hex = "*"
hmac = "*"
sha2 = "*"
