[package]
name = "firefly_binary"
version = "0.1.0"
edition = "2021"
publish = false

[dependencies]
num-bigint = "0.4"
