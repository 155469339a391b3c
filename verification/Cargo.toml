[package]
name = "tzap_writer"
version = "0.1.0"
edition = "2021"
publish = false

[dependencies]
hex = "=0.4.3"
sha2 = "=0.11.1"
unicode-normalization = "=0.1.26"
uuid = { version = "=1.29.0", features = ["v4"] }
