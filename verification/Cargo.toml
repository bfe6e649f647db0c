[package]
name = "qlang"
version = "0.1.0"
edition = "2021"
publish = false

[dependencies]
miette = "=5.10.0"
thiserror = "=1.0.69"
