[package]
name = "compile_mode"
version = "0.1.0"
edition = "2021"
publish = false

[dependencies]
regex = "=1.13.1"
swc_core = { version = "=82.0.0", default-features = false, features = ["common", "ecma_ast"] }
