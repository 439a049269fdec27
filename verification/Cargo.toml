[package]
name = "ella"
version = "0.1.0"
edition = "2021"
publish = false

[dependencies]
logos = "0.11"
enum-primitive-derive = "0.2"
num-traits = "0.2"
