[package]
name = "json5"
version = "0.1.0"
edition = "2021"
publish = false

[dependencies]
rustc_apfloat = "*"
unicode_categories = "*"
serde_json = "*"
ryu = "*"
