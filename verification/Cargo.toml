[package]
name = "expression_functions"
version = "0.1.0"
edition = "2021"
publish = false

[dependencies]
rustc_apfloat = "*"

[dev-dependencies]
chrono = "*"
