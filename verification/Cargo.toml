[package]
name = "adder_blocks"
version = "0.1.0"
edition = "2021"
publish = false

[dependencies]
adder-codec-core = "*"
thiserror = "*"
