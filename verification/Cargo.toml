[package]
name = "microtile_engine"
version = "0.1.0"
edition = "2021"
publish = false

[dependencies]
array-init = "2"
either = "1"
