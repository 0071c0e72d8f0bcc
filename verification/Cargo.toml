[package]
name = "amber"
version = "0.1.0"
edition = "2021"
publish = false

[dependencies]
heraclitus-compiler = "=1.4.0"
colored = "=2.2.0"
