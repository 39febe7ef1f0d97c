[package]
name = "cqlib_decompose"
version = "0.1.0"
edition = "2021"
publish = false

[dependencies]
smallvec = "=1.16.4"

[dev-dependencies]
num-complex = "=0.4.6"
