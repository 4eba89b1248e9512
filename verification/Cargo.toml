[package]
name = "demoparser"
version = "0.1.0"
edition = "2021"
publish = false

[dependencies]
bitter = "=0.9.1"
prost = "=0.14.4"
