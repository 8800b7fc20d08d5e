[package]
name = "blintz_vm"
version = "0.1.0"
edition = "2021"
publish = false

[dependencies]
enum-primitive-derive = "0.1"
failure = "0.1"
num-traits = "0.2"
